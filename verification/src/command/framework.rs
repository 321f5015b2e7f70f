//! Recognising development frameworks in a command line and adding the port
//! and host arguments that they understand.

use vstd::prelude::*;
use crate::text::{chars_of, decimal, decimal_string, owned, split_char, starts_with, str_eq};

verus! {

/// The frameworks whose command lines receive `--port` and `--host`.
#[derive(Debug, Clone, Copy, PartialEq, Eq, Structural)]
pub enum FrameworkName {
    Vite,
    Vp,
    ReactRouter,
    Rsbuild,
    Astro,
    Ng,
    ReactNative,
    Expo,
}

/// A recognised framework, and whether it is also given `--strictPort`.
#[derive(Debug, Clone, Copy, PartialEq, Eq, Structural)]
pub struct FrameworkHint {
    pub name: FrameworkName,
    pub strict_port: bool,
}

/// The framework that a program name denotes, if any.
pub open spec fn framework_spec(name: Seq<char>) -> Option<FrameworkHint> {
    if name == "vite"@ {
        Some(FrameworkHint { name: FrameworkName::Vite, strict_port: true })
    } else if name == "vp"@ {
        Some(FrameworkHint { name: FrameworkName::Vp, strict_port: true })
    } else if name == "react-router"@ {
        Some(FrameworkHint { name: FrameworkName::ReactRouter, strict_port: true })
    } else if name == "rsbuild"@ {
        Some(FrameworkHint { name: FrameworkName::Rsbuild, strict_port: false })
    } else if name == "astro"@ {
        Some(FrameworkHint { name: FrameworkName::Astro, strict_port: false })
    } else if name == "ng"@ {
        Some(FrameworkHint { name: FrameworkName::Ng, strict_port: false })
    } else if name == "react-native"@ {
        Some(FrameworkHint { name: FrameworkName::ReactNative, strict_port: false })
    } else if name == "expo"@ {
        Some(FrameworkHint { name: FrameworkName::Expo, strict_port: false })
    } else {
        None
    }
}

/// The last part of a `/`-separated path that is neither empty nor `.`.
pub open spec fn last_component(parts: Seq<Seq<char>>) -> Option<Seq<char>>
    decreases parts.len(),
{
    if parts.len() == 0 {
        None
    } else if parts.last().len() == 0 || parts.last() == "."@ {
        last_component(parts.drop_last())
    } else {
        Some(parts.last())
    }
}

/// What `std::path::Path::file_name` gives for a Unix path written as text:
/// its last component, skipping empty components and `.`, unless that
/// component is `..` or there is none.
pub open spec fn path_file_name(path: Seq<char>) -> Option<Seq<char>> {
    match last_component(split_char(path, '/')) {
        Some(c) => if c == ".."@ {
            None
        } else {
            Some(c)
        },
        None => None,
    }
}

/// The last path component of `s`, or `s` itself where it has none.
pub open spec fn base(s: Seq<char>) -> Seq<char> {
    match path_file_name(s) {
        Some(n) => n,
        None => s,
    }
}

/// An argument that starts with `-`.
pub open spec fn is_flag(s: Seq<char>) -> bool {
    starts_with(s, '-')
}

/// The first index at or after `i` that does not hold a flag.
pub open spec fn skip_flags(argv: Seq<Seq<char>>, i: int) -> int
    decreases argv.len() - i,
{
    if 0 <= i < argv.len() && is_flag(argv[i]) {
        skip_flags(argv, i + 1)
    } else {
        i
    }
}

/// For a package runner, the sub-commands that it takes before the package
/// name; `None` for any other program.
pub open spec fn runner_subcommands(program: Seq<char>) -> Option<Seq<Seq<char>>> {
    if program == "npx"@ || program == "bunx"@ || program == "pnpx"@ {
        Some(Seq::empty())
    } else if program == "yarn"@ || program == "pnpm"@ {
        Some(seq!["dlx"@, "exec"@])
    } else {
        None
    }
}

/// The framework named at index `j`, if there is an argument there.
pub open spec fn framework_at(argv: Seq<Seq<char>>, j: int) -> Option<FrameworkHint> {
    if 0 <= j < argv.len() {
        framework_spec(base(argv[j]))
    } else {
        None
    }
}

/// The framework that a command line runs: its program, or the package that
/// a package runner (`npx`, `pnpm dlx`, ...) runs.
pub open spec fn find_framework_spec(argv: Seq<Seq<char>>) -> Option<FrameworkHint> {
    if argv.len() == 0 {
        None
    } else {
        let first = base(argv[0]);
        if framework_spec(first) is Some {
            framework_spec(first)
        } else {
            match runner_subcommands(first) {
                None => None,
                Some(subs) => if subs.len() == 0 {
                    framework_at(argv, skip_flags(argv, 1))
                } else {
                    let i = skip_flags(argv, 1);
                    if i >= argv.len() {
                        None
                    } else if !subs.contains(argv[i]) {
                        framework_at(argv, i)
                    } else {
                        framework_at(argv, skip_flags(argv, i + 1))
                    }
                },
            }
        }
    }
}

/// `npm run <script>` without a `--` after the script: npm needs `--` before
/// arguments meant for the script.
pub open spec fn needs_separator_spec(argv: Seq<Seq<char>>) -> bool {
    &&& argv.len() > 1
    &&& base(argv[0]) == "npm"@
    &&& (argv[1] == "run"@ || argv[1] == "run-script"@)
    &&& !(exists|j: int| 3 <= j < argv.len() && argv[j] == "--"@)
}

/// The host value that a framework is given: `localhost` for Expo.
pub open spec fn host_value(f: FrameworkHint, host: Seq<char>) -> Seq<char> {
    if f.name == FrameworkName::Expo {
        "localhost"@
    } else {
        host
    }
}

/// The command line after `prepare_framework_args`.
pub open spec fn prepared_args(
    argv: Seq<Seq<char>>,
    port: u16,
    host: Option<Seq<char>>,
    hint: Option<FrameworkHint>,
) -> Seq<Seq<char>> {
    let found = if hint is Some {
        hint
    } else {
        find_framework_spec(argv)
    };
    match found {
        None => argv,
        Some(f) => {
            let inject_port = !argv.contains("--port"@);
            let inject_host = !argv.contains("--host"@) && host is Some;
            let a1 = if (inject_port || inject_host) && needs_separator_spec(argv) {
                argv.push("--"@)
            } else {
                argv
            };
            let a2 = if inject_port {
                let b = a1.push("--port"@).push(decimal(port as nat));
                if f.strict_port && !b.contains("--strictPort"@) {
                    b.push("--strictPort"@)
                } else {
                    b
                }
            } else {
                a1
            };
            if inject_host {
                a2.push("--host"@).push(host_value(f, host->0))
            } else {
                a2
            }
        },
    }
}

/// The view of a list of strings as a list of texts.
pub open spec fn words(v: Seq<String>) -> Seq<Seq<char>> {
    Seq::new(v.len(), |i: int| v[i]@)
}

proof fn lemma_words_push(v: Seq<String>, s: String)
    ensures
        words(v.push(s)) == words(v).push(s@),
{
    assert(words(v.push(s)) =~= words(v).push(s@));
}

/// `std::path::Path::file_name` for a path given as text, with the name
/// converted back to text (a name taken from a `str` is always valid
/// UTF-8). The contract says that the name is `path_file_name` of the path,
/// as the documentation of `Path::file_name` and `Path::components` gives it.
#[verifier::external_body]
fn file_name(path: &str) -> (name: Option<String>)
    ensures
        match name {
            Some(n) => path_file_name(path@) == Some(n@),
            None => path_file_name(path@) is None,
        },
{
    std::path::Path::new(path).file_name().and_then(|n| n.to_str()).map(|n| n.to_string())
}

/// The last path component of `value`, or `value` where it has none.
pub fn basename(value: &str) -> (r: String)
    ensures
        r@ == base(value@),
{
    match file_name(value) {
        Some(n) => n,
        None => owned(value),
    }
}

impl FrameworkHint {
    /// The framework named `name` (`vite`, `vp`, `react-router`, `rsbuild`,
    /// `astro`, `ng`, `react-native` or `expo`).
    pub fn from_name(name: &str) -> (r: Option<Self>)
        ensures
            r == framework_spec(name@),
    {
        framework(name)
    }
}

fn framework(name: &str) -> (r: Option<FrameworkHint>)
    ensures
        r == framework_spec(name@),
{
    if str_eq(name, "vite") {
        Some(FrameworkHint { name: FrameworkName::Vite, strict_port: true })
    } else if str_eq(name, "vp") {
        Some(FrameworkHint { name: FrameworkName::Vp, strict_port: true })
    } else if str_eq(name, "react-router") {
        Some(FrameworkHint { name: FrameworkName::ReactRouter, strict_port: true })
    } else if str_eq(name, "rsbuild") {
        Some(FrameworkHint { name: FrameworkName::Rsbuild, strict_port: false })
    } else if str_eq(name, "astro") {
        Some(FrameworkHint { name: FrameworkName::Astro, strict_port: false })
    } else if str_eq(name, "ng") {
        Some(FrameworkHint { name: FrameworkName::Ng, strict_port: false })
    } else if str_eq(name, "react-native") {
        Some(FrameworkHint { name: FrameworkName::ReactNative, strict_port: false })
    } else if str_eq(name, "expo") {
        Some(FrameworkHint { name: FrameworkName::Expo, strict_port: false })
    } else {
        None
    }
}

fn framework_of_arg(argv: &Vec<String>, j: usize) -> (r: Option<FrameworkHint>)
    ensures
        r == framework_at(words(argv@), j as int),
{
    if j < argv.len() {
        let b = basename(argv[j].as_str());
        framework(b.as_str())
    } else {
        None
    }
}

fn skip_flag_args(argv: &Vec<String>, i: usize) -> (r: usize)
    requires
        i <= argv.len(),
    ensures
        r == skip_flags(words(argv@), i as int),
        i <= r <= argv.len(),
    decreases argv.len() - i,
{
    if i < argv.len() && starts_with_dash(argv[i].as_str()) {
        skip_flag_args(argv, i + 1)
    } else {
        i
    }
}

fn starts_with_dash(s: &str) -> (r: bool)
    ensures
        r == is_flag(s@),
{
    let c = chars_of(s);
    c.len() > 0 && c[0] == '-'
}

fn find_framework(argv: &Vec<String>) -> (r: Option<FrameworkHint>)
    ensures
        r == find_framework_spec(words(argv@)),
{
    let ghost w = words(argv@);
    if argv.len() == 0 {
        return None;
    }
    let first = basename(argv[0].as_str());
    let direct = framework(first.as_str());
    if direct.is_some() {
        return direct;
    }
    let f = first.as_str();
    if str_eq(f, "npx") || str_eq(f, "bunx") || str_eq(f, "pnpx") {
        let j = skip_flag_args(argv, 1);
        framework_of_arg(argv, j)
    } else if str_eq(f, "yarn") || str_eq(f, "pnpm") {
        let i = skip_flag_args(argv, 1);
        if i >= argv.len() {
            return None;
        }
        let a = argv[i].as_str();
        let is_sub = str_eq(a, "dlx") || str_eq(a, "exec");
        proof {
            let subs = seq!["dlx"@, "exec"@];
            assert(subs.contains(w[i as int]) <==> (w[i as int] == "dlx"@ || w[i as int]
                == "exec"@)) by {
                if w[i as int] == "exec"@ {
                    assert(subs[1] == "exec"@);
                }
                if w[i as int] == "dlx"@ {
                    assert(subs[0] == "dlx"@);
                }
            }
        }
        if !is_sub {
            framework_of_arg(argv, i)
        } else {
            let j = skip_flag_args(argv, i + 1);
            framework_of_arg(argv, j)
        }
    } else {
        None
    }
}

/// Whether `flag` is one of the arguments.
pub fn has_flag(argv: &Vec<String>, flag: &str) -> (r: bool)
    ensures
        r == words(argv@).contains(flag@),
{
    let mut i: usize = 0;
    while i < argv.len()
        invariant
            i <= argv.len(),
            forall|j: int| 0 <= j < i ==> argv@[j]@ != flag@,
        decreases argv.len() - i,
    {
        if str_eq(argv[i].as_str(), flag) {
            assert(words(argv@)[i as int] == flag@);
            return true;
        }
        i = i + 1;
    }
    assert forall|j: int| 0 <= j < words(argv@).len() implies words(argv@)[j] != flag@ by {
        assert(words(argv@)[j] == argv@[j]@);
    }
    false
}

fn needs_argument_separator(argv: &Vec<String>) -> (r: bool)
    ensures
        r == needs_separator_spec(words(argv@)),
{
    let ghost w = words(argv@);
    if argv.len() < 2 {
        return false;
    }
    let first = basename(argv[0].as_str());
    if !str_eq(first.as_str(), "npm") {
        return false;
    }
    if !(str_eq(argv[1].as_str(), "run") || str_eq(argv[1].as_str(), "run-script")) {
        return false;
    }
    let mut i: usize = 3;
    while i < argv.len()
        invariant
            3 <= i,
            w == words(argv@),
            forall|j: int| 3 <= j < i && j < argv.len() ==> w[j] != "--"@,
        decreases argv.len() - i,
    {
        if str_eq(argv[i].as_str(), "--") {
            assert(w[i as int] == "--"@);
            return false;
        }
        i = i + 1;
    }
    true
}

/// Adds `--port <port>` (with `--strictPort` where the framework takes it)
/// and `--host <host>` to a command line that runs a known framework, leaving
/// out any flag that it already has. The framework is `hint`, or else the one
/// that the command line runs; with neither, the command line is unchanged.
pub fn prepare_framework_args(
    argv: &mut Vec<String>,
    port: u16,
    host: Option<&str>,
    hint: Option<FrameworkHint>,
)
    ensures
        words(final(argv)@) == prepared_args(
            words(old(argv)@),
            port,
            match host {
                Some(h) => Some(h@),
                None => None,
            },
            hint,
        ),
{
    let ghost w0 = words(argv@);
    let ghost hv: Option<Seq<char>> = match host {
        Some(h) => Some(h@),
        None => None,
    };
    let found = match hint {
        Some(h) => Some(h),
        None => find_framework(argv),
    };
    let framework = match found {
        Some(f) => f,
        None => {
            return;
        },
    };
    let inject_port = !has_flag(argv, "--port");
    let inject_host = !has_flag(argv, "--host") && host.is_some();
    if (inject_port || inject_host) && needs_argument_separator(argv) {
        let sep = owned("--");
        proof {
            lemma_words_push(argv@, sep);
        }
        argv.push(sep);
    }
    let ghost w1 = words(argv@);
    if inject_port {
        let p = owned("--port");
        proof {
            lemma_words_push(argv@, p);
        }
        argv.push(p);
        let d = decimal_string(port as u64);
        proof {
            lemma_words_push(argv@, d);
        }
        argv.push(d);
        if framework.strict_port && !has_flag(argv, "--strictPort") {
            let s = owned("--strictPort");
            proof {
                lemma_words_push(argv@, s);
            }
            argv.push(s);
        }
    }
    let ghost w2 = words(argv@);
    if inject_host {
        if let Some(h) = host {
            let v = if framework.name == FrameworkName::Expo {
                owned("localhost")
            } else {
                owned(h)
            };
            let k = owned("--host");
            proof {
                lemma_words_push(argv@, k);
            }
            argv.push(k);
            proof {
                lemma_words_push(argv@, v);
            }
            argv.push(v);
        }
    }
}

/// The script name in `npm run <name>`, `npm run-script <name>`, and
/// `pnpm`/`yarn`/`bun run <name>`.
pub open spec fn package_script_name_spec(argv: Seq<Seq<char>>) -> Option<Seq<char>> {
    if argv.len() < 2 {
        None
    } else {
        let runner = base(argv[0]);
        let sub = argv[1];
        let is_run = if runner == "npm"@ {
            sub == "run"@ || sub == "run-script"@
        } else if runner == "pnpm"@ || runner == "yarn"@ || runner == "bun"@ {
            sub == "run"@
        } else {
            false
        };
        if is_run && argv.len() > 2 {
            Some(argv[2])
        } else {
            None
        }
    }
}

/// A character that composes shell commands or hides a part of one.
pub open spec fn is_shell_operator(c: char) -> bool {
    c == '&' || c == '|' || c == ';' || c == '<' || c == '>' || c == '`' || c == '#' || c == '\n'
        || c == '\r'
}

/// A script that is one plain command: no shell operator and no `$(`.
pub open spec fn simple_script(script: Seq<char>) -> bool {
    &&& forall|i: int| 0 <= i < script.len() ==> !is_shell_operator(#[trigger] script[i])
    &&& !(exists|i: int| 0 <= i < script.len() - 1 && #[trigger] script[i] == '$' && script[i + 1] == '(')
}

/// The framework that a split command runs: the one its first word names.
pub open spec fn words_framework_spec(ws: Seq<Seq<char>>) -> Option<FrameworkHint> {
    if ws.len() > 0 {
        framework_spec(base(ws[0]))
    } else {
        None
    }
}

/// What `shell_words::split` gives for a line: its words, or `None` where
/// a quote is left open.
pub uninterp spec fn shell_split(line: Seq<char>) -> Option<Seq<Seq<char>>>;

/// The framework that a package script runs.
pub open spec fn script_framework_spec(script: Seq<char>) -> Option<FrameworkHint> {
    if !simple_script(script) {
        None
    } else {
        match shell_split(script) {
            Some(ws) => words_framework_spec(ws),
            None => None,
        }
    }
}

/// What `serde_json` gives for the member at `path` in a JSON text: the
/// text parses, each key of `path` names a member of the object reached so
/// far, and the last one is a JSON string, whose value this is; else `None`.
pub uninterp spec fn json_string_at(text: Seq<char>, path: Seq<Seq<char>>) -> Option<Seq<char>>;

/// The member of `package.json` that holds the script named `script`.
pub open spec fn script_path(script: Seq<char>) -> Seq<Seq<char>> {
    seq!["scripts"@, script]
}

/// The framework that `npm run <script>` (or the `pnpm`, `yarn`, `bun`
/// equivalent) runs, according to the `package.json` text.
pub open spec fn package_script_framework_spec(
    argv: Seq<Seq<char>>,
    package_json: Option<Seq<char>>,
) -> Option<FrameworkHint> {
    match (package_script_name_spec(argv), package_json) {
        (Some(name), Some(json)) => match json_string_at(json, script_path(name)) {
            Some(script) => script_framework_spec(script),
            None => None,
        },
        _ => None,
    }
}

#[verifier::external_type_specification]
#[verifier::external_body]
pub struct ExShellParseError(shell_words::ParseError);

/// `shell_words::split`: the words of a command line, split as a POSIX shell
/// would without expansions. The contract ties the words to `shell_split`
/// and claims nothing else of them.
#[verifier::external_body]
fn split_words(line: &str) -> (r: Result<Vec<String>, shell_words::ParseError>)
    ensures
        match r {
            Ok(ws) => shell_split(line@) == Some(words(ws@)),
            Err(_) => shell_split(line@) is None,
        },
{
    shell_words::split(line)
}

/// `serde_json::from_str` into a `serde_json::Value`, then `Value::get` for
/// each key of `path` in turn and `Value::as_str` on the member reached. The
/// contract ties the result to `json_string_at` and claims nothing else of
/// it.
#[verifier::external_body]
fn json_member(text: &str, path: &Vec<String>) -> (r: Option<String>)
    ensures
        match r {
            Some(s) => json_string_at(text@, words(path@)) == Some(s@),
            None => json_string_at(text@, words(path@)) is None,
        },
{
    let root: serde_json::Value = serde_json::from_str(text).ok()?;
    let mut value = &root;
    for key in path {
        value = value.get(key.as_str())?;
    }
    value.as_str().map(|s| s.to_string())
}

fn package_script_name(argv: &Vec<String>) -> (r: Option<&str>)
    ensures
        match r {
            Some(s) => package_script_name_spec(words(argv@)) == Some(s@),
            None => package_script_name_spec(words(argv@)) is None,
        },
{
    if argv.len() < 2 {
        return None;
    }
    let runner = basename(argv[0].as_str());
    let r = runner.as_str();
    let sub = argv[1].as_str();
    let is_run = if str_eq(r, "npm") {
        str_eq(sub, "run") || str_eq(sub, "run-script")
    } else if str_eq(r, "pnpm") || str_eq(r, "yarn") || str_eq(r, "bun") {
        str_eq(sub, "run")
    } else {
        false
    };
    if is_run && argv.len() > 2 {
        Some(argv[2].as_str())
    } else {
        None
    }
}

/// The framework that the first word of a split command names.
pub fn framework_of_words(ws: &Vec<String>) -> (r: Option<FrameworkHint>)
    ensures
        r == words_framework_spec(words(ws@)),
{
    if ws.len() > 0 {
        let b = basename(ws[0].as_str());
        framework(b.as_str())
    } else {
        None
    }
}

fn is_simple_script(script: &str) -> (r: bool)
    ensures
        r == simple_script(script@),
{
    let c = chars_of(script);
    let mut i: usize = 0;
    while i < c.len()
        invariant
            c@ == script@,
            i <= c.len(),
            forall|j: int| 0 <= j < i ==> !is_shell_operator(#[trigger] c@[j]),
            forall|j: int| 0 <= j < i && j < c.len() - 1 ==> !(#[trigger] c@[j] == '$' && c@[j + 1] == '('),
        decreases c.len() - i,
    {
        let x = c[i];
        if x == '&' || x == '|' || x == ';' || x == '<' || x == '>' || x == '`' || x == '#' || x
            == '\n' || x == '\r' {
            assert(is_shell_operator(c@[i as int]));
            return false;
        }
        if x == '$' && i + 1 < c.len() && c[i + 1] == '(' {
            assert(c@[i as int] == '$' && c@[i + 1] == '(');
            return false;
        }
        i = i + 1;
    }
    true
}

/// The framework that a package script runs: `None` for a script that
/// composes commands (`&`, `|`, `;`, redirections, backquotes, comments,
/// several lines, `$(`) or that does not split into words.
pub fn script_framework(script: &str) -> (r: Option<FrameworkHint>)
    ensures
        r == script_framework_spec(script@),
{
    if !is_simple_script(script) {
        return None;
    }
    match split_words(script) {
        Ok(ws) => framework_of_words(&ws),
        Err(_) => None,
    }
}

/// The framework that a `package.json` script run by `argv` invokes;
/// `package_json` is the text of the `package.json` beside the command, if it
/// could be read.
pub fn find_package_script_framework(argv: &Vec<String>, package_json: Option<&str>) -> (r: Option<
    FrameworkHint,
>)
    ensures
        r == package_script_framework_spec(
            words(argv@),
            match package_json {
                Some(j) => Some(j@),
                None => None,
            },
        ),
{
    let name = match package_script_name(argv) {
        Some(n) => n,
        None => return None,
    };
    let json = match package_json {
        Some(j) => j,
        None => return None,
    };
    let mut path: Vec<String> = Vec::new();
    path.push(owned("scripts"));
    path.push(owned(name));
    assert(words(path@) =~= script_path(name@));
    match json_member(json, &path) {
        Some(script) => script_framework(script.as_str()),
        None => None,
    }
}

/// Preparing a command line a second time, with the same host and hint,
/// changes nothing, whatever port is given then: the first preparation left
/// `--port` (and `--host`, when a host is given) in it, or found no
/// framework.
pub proof fn lemma_prepare_is_idempotent(
    argv: Seq<Seq<char>>,
    port: u16,
    host: Option<Seq<char>>,
    hint: Option<FrameworkHint>,
    port2: u16,
)
    ensures
        prepared_args(prepared_args(argv, port, host, hint), port2, host, hint) == prepared_args(
            argv,
            port,
            host,
            hint,
        ),
{
    let a = prepared_args(argv, port, host, hint);
    let found = if hint is Some {
        hint
    } else {
        find_framework_spec(argv)
    };
    if let Some(f) = found {
        let inject_port = !argv.contains("--port"@);
        let inject_host = !argv.contains("--host"@) && host is Some;
        let a1 = if (inject_port || inject_host) && needs_separator_spec(argv) {
            argv.push("--"@)
        } else {
            argv
        };
        let a2 = if inject_port {
            let b = a1.push("--port"@).push(decimal(port as nat));
            if f.strict_port && !b.contains("--strictPort"@) {
                b.push("--strictPort"@)
            } else {
                b
            }
        } else {
            a1
        };
        assert(argv.contains("--port"@) ==> a1.contains("--port"@)) by {
            if argv.contains("--port"@) {
                let k = choose|k: int| 0 <= k < argv.len() && argv[k] == "--port"@;
                assert(a1[k] == "--port"@);
            }
        }
        assert(argv.contains("--host"@) ==> a1.contains("--host"@)) by {
            if argv.contains("--host"@) {
                let k = choose|k: int| 0 <= k < argv.len() && argv[k] == "--host"@;
                assert(a1[k] == "--host"@);
            }
        }
        assert(a2.contains("--port"@)) by {
            if inject_port {
                assert(a2[a1.len() as int] == "--port"@);
            } else {
                let k = choose|k: int| 0 <= k < a1.len() && a1[k] == "--port"@;
                assert(a2[k] == "--port"@);
            }
        }
        assert(a1.contains("--host"@) ==> a2.contains("--host"@)) by {
            if a1.contains("--host"@) {
                let k = choose|k: int| 0 <= k < a1.len() && a1[k] == "--host"@;
                assert(a2[k] == "--host"@);
            }
        }
        assert(a.contains("--port"@)) by {
            let k = choose|k: int| 0 <= k < a2.len() && a2[k] == "--port"@;
            assert(a[k] == "--port"@);
        }
        assert(host is Some ==> a.contains("--host"@)) by {
            if host is Some {
                if inject_host {
                    assert(a[a2.len() as int] == "--host"@);
                } else {
                    let k = choose|k: int| 0 <= k < a2.len() && a2[k] == "--host"@;
                    assert(a[k] == "--host"@);
                }
            }
        }
    }
}

/// Flags are arguments that start with `-`; `skip_flags` passes over a run
/// of them.
proof fn lemma_skip_flag_run(argv: Seq<Seq<char>>, i: int, k: int)
    requires
        0 <= i <= k < argv.len(),
        forall|j: int| i <= j < k ==> (#[trigger] argv[j]).len() > 0 && argv[j][0] == '-',
        !(argv[k].len() > 0 && argv[k][0] == '-'),
    ensures
        skip_flags(argv, i) == k,
    decreases k - i,
{
    if i < k {
        lemma_skip_flag_run(argv, i + 1, k);
    }
}

/// The frameworks run through a package runner: `npx`, `bunx` or `pnpx`
/// followed by flags and then a package that names a framework run that
/// framework, and so do `pnpm` or `yarn` with flags, `dlx` or `exec`, more
/// flags and such a package.
pub proof fn lemma_package_runner_runs_the_package(
    argv: Seq<Seq<char>>,
    sub: int,
    package: int,
)
    requires
        0 < sub <= package < argv.len(),
        forall|j: int|
            1 <= j < package && j != sub ==> (#[trigger] argv[j]).len() > 0 && argv[j][0] == '-',
        !(argv[package].len() > 0 && argv[package][0] == '-'),
        ({
            let program = base(argv[0]);
            ||| (program == "npx"@ || program == "bunx"@ || program == "pnpx"@) && sub == package
            ||| (program == "pnpm"@ || program == "yarn"@) && sub < package && (argv[sub] == "dlx"@
                || argv[sub] == "exec"@)
        }),
    ensures
        find_framework_spec(argv) == framework_spec(base(argv[package])),
{
    let program = base(argv[0]);
    reveal_strlit("npx");
    reveal_strlit("bunx");
    reveal_strlit("pnpx");
    reveal_strlit("pnpm");
    reveal_strlit("yarn");
    reveal_strlit("vite");
    reveal_strlit("vp");
    reveal_strlit("react-router");
    reveal_strlit("rsbuild");
    reveal_strlit("astro");
    reveal_strlit("ng");
    reveal_strlit("react-native");
    reveal_strlit("expo");
    assert(framework_spec(program) is None) by {
        let names = seq![
            "vite"@,
            "vp"@,
            "react-router"@,
            "rsbuild"@,
            "astro"@,
            "ng"@,
            "react-native"@,
            "expo"@,
        ];
        assert forall|k: int| 0 <= k < names.len() implies #[trigger] names[k] != program by {
            if names[k].len() == program.len() {
                if program.len() == 4 {
                    assert(names[k][0] != program[0]);
                }
            }
        }
        assert(names[0] != program && names[1] != program && names[2] != program && names[3]
            != program && names[4] != program && names[5] != program && names[6] != program
            && names[7] != program);
    }
    if sub == package {
        assert(runner_subcommands(program) == Some(Seq::<Seq<char>>::empty()));
        lemma_skip_flag_run(argv, 1, package);
    } else {
        assert(!(argv[sub].len() > 0 && argv[sub][0] == '-')) by {
            if argv[sub] == "dlx"@ {
                reveal_strlit("dlx");
            } else {
                reveal_strlit("exec");
            }
        }
        assert(program != "npx"@ && program != "bunx"@ && program != "pnpx"@) by {
            assert(program.len() == 4);
            if program == "pnpm"@ {
                assert(program[3] != "pnpx"@[3]);
                assert(program[0] != "bunx"@[0]);
            } else {
                assert(program[0] != "pnpx"@[0]);
                assert(program[0] != "bunx"@[0]);
            }
        }
        assert(runner_subcommands(program) == Some(seq!["dlx"@, "exec"@]));
        lemma_skip_flag_run(argv, 1, sub);
        lemma_skip_flag_run(argv, sub + 1, package);
        let subs = seq!["dlx"@, "exec"@];
        assert(subs.contains(argv[sub])) by {
            if argv[sub] == "dlx"@ {
                assert(subs[0] == argv[sub]);
            } else {
                assert(subs[1] == argv[sub]);
            }
        }
    }
}

} // verus!
