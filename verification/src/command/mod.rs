//! Preparing the command line and environment of an HTTP development server.

pub mod framework;

use vstd::prelude::*;
use crate::text::{before, before_chars, chars_of, decimal, decimal_string, owned, str_eq, string_of, strip_scheme, strip_scheme_chars};
use self::framework::{
    base, basename, find_package_script_framework, framework_spec, package_script_framework_spec,
    prepare_framework_args, prepared_args, words, FrameworkHint,
};

verus! {

/// The command line and the extra environment of a development server.
#[derive(Debug, Clone)]
pub struct PreparedCommand {
    pub argv: Vec<String>,
    pub env: Vec<(String, String)>,
}

/// The view of a list of environment variables.
pub open spec fn pairs(v: Seq<(String, String)>) -> Seq<(Seq<char>, Seq<char>)> {
    Seq::new(v.len(), |i: int| (v[i].0@, v[i].1@))
}

/// The host name that a development server binds: `localhost` for Expo,
/// `127.0.0.1` for everything else.
pub open spec fn host_for_spec(argv: Seq<Seq<char>>, framework: Option<Seq<char>>) -> Seq<char> {
    if framework == Some("expo"@) || (argv.len() > 0 && base(argv[0]) == "expo"@) {
        "localhost"@
    } else {
        "127.0.0.1"@
    }
}

/// The host name of a URL: no scheme, path or port.
pub open spec fn public_hostname_spec(url: Seq<char>) -> Seq<char> {
    before(before(strip_scheme(url), '/'), ':')
}

/// The framework hint for a command: the one named by `framework`, or else the
/// one found in the `package.json` script that the command runs.
pub open spec fn command_hint(
    argv: Seq<Seq<char>>,
    framework: Option<Seq<char>>,
    package_json: Option<Seq<char>>,
) -> Option<FrameworkHint> {
    let named = match framework {
        Some(f) => framework_spec(f),
        None => None,
    };
    if named is Some {
        named
    } else {
        package_script_framework_spec(argv, package_json)
    }
}

pub open spec fn opt_view(s: Option<&str>) -> Option<Seq<char>> {
    match s {
        Some(x) => Some(x@),
        None => None,
    }
}

fn host_for(argv: &Vec<String>, framework: Option<&str>) -> (r: String)
    ensures
        r@ == host_for_spec(words(argv@), opt_view(framework)),
{
    let named_expo = match framework {
        Some(f) => str_eq(f, "expo"),
        None => false,
    };
    let first_expo = if argv.len() > 0 {
        let b = basename(argv[0].as_str());
        str_eq(b.as_str(), "expo")
    } else {
        false
    };
    if named_expo || first_expo {
        owned("localhost")
    } else {
        owned("127.0.0.1")
    }
}

/// The host name of `public_url`, as a Vite allowed host.
pub fn public_hostname(public_url: &str) -> (r: String)
    ensures
        r@ == public_hostname_spec(public_url@),
{
    let c = chars_of(public_url);
    let rest = strip_scheme_chars(&c);
    let authority = before_chars(&rest, '/');
    let host = before_chars(&authority, ':');
    string_of(&host)
}

/// The command line of an HTTP development server, with the port and host
/// arguments of its framework, and its environment: `PORT`, `LAZY_URL`,
/// `__VITE_ADDITIONAL_SERVER_ALLOWED_HOSTS` (the host name of the URL) and
/// `HOST`. `package_json` is the text of the `package.json` in the command's
/// working directory, if it could be read.
pub fn prepare_http_command(
    argv: Vec<String>,
    port: u16,
    public_url: &str,
    framework: Option<&str>,
    package_json: Option<&str>,
) -> (r: PreparedCommand)
    ensures
        words(r.argv@) == prepared_args(
            words(argv@),
            port,
            Some(host_for_spec(words(argv@), opt_view(framework))),
            command_hint(words(argv@), opt_view(framework), opt_view(package_json)),
        ),
        pairs(r.env@) == seq![
            ("PORT"@, decimal(port as nat)),
            ("LAZY_URL"@, public_url@),
            ("__VITE_ADDITIONAL_SERVER_ALLOWED_HOSTS"@, public_hostname_spec(public_url@)),
            ("HOST"@, host_for_spec(words(argv@), opt_view(framework))),
        ],
{
    let mut argv = argv;
    let ghost w0 = words(argv@);
    let host = host_for(&argv, framework);
    let named = match framework {
        Some(f) => FrameworkHint::from_name(f),
        None => None,
    };
    let hint = match named {
        Some(h) => Some(h),
        None => find_package_script_framework(&argv, package_json),
    };
    prepare_framework_args(&mut argv, port, Some(host.as_str()), hint);
    let mut env: Vec<(String, String)> = Vec::new();
    env.push((owned("PORT"), decimal_string(port as u64)));
    env.push((owned("LAZY_URL"), owned(public_url)));
    env.push((owned("__VITE_ADDITIONAL_SERVER_ALLOWED_HOSTS"), public_hostname(public_url)));
    env.push((owned("HOST"), host));
    assert(pairs(env@) =~= seq![
        ("PORT"@, decimal(port as nat)),
        ("LAZY_URL"@, public_url@),
        ("__VITE_ADDITIONAL_SERVER_ALLOWED_HOSTS"@, public_hostname_spec(public_url@)),
        ("HOST"@, host_for_spec(w0, opt_view(framework))),
    ]);
    PreparedCommand { argv, env }
}

} // verus!
