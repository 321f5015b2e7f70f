//! Host routing: the host name of each service, and the service that a
//! request's host name addresses.
//!
//! Two schemes exist. Suffix routing appends a fixed suffix to the service
//! name (`vite` + `.localhost`). Xip routing builds one DNS label from the
//! service name and an encoded IPv4 address under an xip-style zone
//! (`vite-127-0-0-1.xip.example.com`).

use vstd::prelude::*;
use crate::text::{lower, 
    all_ascii, before, byte_len, byte_len_exceeds, chars_all_ascii, chars_eq_ignore_case,
    chars_of, concat, debug_quoted, debug_str, decimal, decimal_chars, owned, digits_value, eq_ignore_case, find, find_char_from,
    find_from, is_digit, leading_count, lemma_find_from, lemma_find_from_unique,
    lemma_leading_count, lemma_trailing_count, lower_chars, lower_seq, slice_chars, string_of,
    trailing_count, trim, trim_bounds, split_char, lemma_split_char_step, lemma_split_char_last,
};

verus! {

/// What a DNS label names, for error messages.
#[derive(Debug, Clone, Copy, PartialEq, Eq, Structural)]
pub enum LabelKind {
    ServiceName,
    DomainLabel,
}

/// Why a text is not a DNS label that routing accepts.
#[derive(Debug, Clone, Copy, PartialEq, Eq, Structural)]
pub enum LabelProblem {
    Empty,
    TooLong,
    NotAscii,
    BadCharacter,
    HyphenAtEdge,
}

/// The errors of host routing.
#[derive(Debug, Clone, Copy, PartialEq, Eq, Structural)]
pub enum RoutingError {
    EmptyDomain,
    DomainTooLong,
    Label(LabelKind, LabelProblem),
    EmptyServiceName,
    FirstLabelTooLong,
    HostnameTooLong,
    NoBareHostname,
}

/// What a label is called in messages.
pub open spec fn label_kind_text(k: LabelKind) -> Seq<char> {
    match k {
        LabelKind::ServiceName => "service name"@,
        LabelKind::DomainLabel => "xip domain label"@,
    }
}

/// The message of a label problem, after the label's description.
pub open spec fn label_problem_text(p: LabelProblem) -> Seq<char> {
    match p {
        LabelProblem::Empty => " must not be empty"@,
        LabelProblem::TooLong => " exceeds 63 characters"@,
        LabelProblem::NotAscii => " must contain only ASCII characters"@,
        LabelProblem::BadCharacter => " must contain only lowercase letters, digits, and hyphens"@,
        LabelProblem::HyphenAtEdge => " must start and end with a letter or digit"@,
    }
}

/// The message of each routing error.
pub open spec fn routing_error_text(e: RoutingError) -> Seq<char> {
    match e {
        RoutingError::EmptyDomain => "xip domain must not be empty"@,
        RoutingError::DomainTooLong => "xip domain exceeds 253 characters"@,
        RoutingError::Label(k, p) => label_kind_text(k) + label_problem_text(p),
        RoutingError::EmptyServiceName => "service name must not be empty"@,
        RoutingError::FirstLabelTooLong => "service name is too long for an xip hostname (the service and encoded IP must fit in one 63-character DNS label)"@,
        RoutingError::HostnameTooLong => "generated xip hostname exceeds 253 characters"@,
        RoutingError::NoBareHostname => "suffix has no bare hostname"@,
    }
}

impl RoutingError {
    /// The error's message.
    pub fn message(&self) -> (r: String)
        ensures
            r@ == routing_error_text(*self),
    {
        match self {
            RoutingError::EmptyDomain => owned("xip domain must not be empty"),
            RoutingError::DomainTooLong => owned("xip domain exceeds 253 characters"),
            RoutingError::Label(k, p) => {
                let a = match k {
                    LabelKind::ServiceName => "service name",
                    LabelKind::DomainLabel => "xip domain label",
                };
                let b = match p {
                    LabelProblem::Empty => " must not be empty",
                    LabelProblem::TooLong => " exceeds 63 characters",
                    LabelProblem::NotAscii => " must contain only ASCII characters",
                    LabelProblem::BadCharacter => " must contain only lowercase letters, digits, and hyphens",
                    LabelProblem::HyphenAtEdge => " must start and end with a letter or digit",
                };
                concat(a, b)
            },
            RoutingError::EmptyServiceName => owned("service name must not be empty"),
            RoutingError::FirstLabelTooLong => owned(
                "service name is too long for an xip hostname (the service and encoded IP must fit in one 63-character DNS label)",
            ),
            RoutingError::HostnameTooLong => owned("generated xip hostname exceeds 253 characters"),
            RoutingError::NoBareHostname => owned("suffix has no bare hostname"),
        }
    }
}

/// A lower-case letter, a digit or a hyphen.
pub open spec fn label_char_ok(c: char) -> bool {
    ('a' <= c && c <= 'z') || is_digit(c) || c == '-'
}

/// The first rule that `label` breaks, in the order in which they are tested.
pub open spec fn label_problem(label: Seq<char>) -> Option<LabelProblem> {
    if label.len() == 0 {
        Some(LabelProblem::Empty)
    } else if byte_len(label) > 63 {
        Some(LabelProblem::TooLong)
    } else if !all_ascii(label) {
        Some(LabelProblem::NotAscii)
    } else if !(forall|i: int| 0 <= i < label.len() ==> label_char_ok(#[trigger] label[i])) {
        Some(LabelProblem::BadCharacter)
    } else if label[0] == '-' || label.last() == '-' {
        Some(LabelProblem::HyphenAtEdge)
    } else {
        None
    }
}

/// The problem of the first label that has one.
pub open spec fn first_problem(labels: Seq<Seq<char>>) -> Option<LabelProblem>
    decreases labels.len(),
{
    if labels.len() == 0 {
        None
    } else {
        match label_problem(labels[0]) {
            Some(p) => Some(p),
            None => first_problem(labels.drop_first()),
        }
    }
}

/// A domain that `normalize_domain` accepts as it is.
pub open spec fn valid_domain(d: Seq<char>) -> bool {
    &&& d.len() > 0
    &&& byte_len(d) <= 253
    &&& first_problem(split_char(d, '.')) is None
}

/// `domain` trimmed of white space and of trailing dots, and lower-cased.
pub open spec fn normalized_text(domain: Seq<char>) -> Seq<char> {
    let t = trim(domain);
    lower_seq(t.take(t.len() - trailing_count(t, '.')))
}

/// The result of `normalize_domain`.
pub open spec fn normalize_domain_spec(domain: Seq<char>) -> Result<Seq<char>, RoutingError> {
    let d = normalized_text(domain);
    if d.len() == 0 {
        Err(RoutingError::EmptyDomain)
    } else if byte_len(d) > 253 {
        Err(RoutingError::DomainTooLong)
    } else {
        match first_problem(split_char(d, '.')) {
            Some(p) => Err(RoutingError::Label(LabelKind::DomainLabel, p)),
            None => Ok(d),
        }
    }
}

/// An IPv4 address written with hyphens: `127-0-0-1`.
pub open spec fn encoded_ip(ip: Seq<u8>) -> Seq<char> {
    decimal(ip[0] as nat) + seq!['-'] + decimal(ip[1] as nat) + seq!['-'] + decimal(ip[2] as nat)
        + seq!['-'] + decimal(ip[3] as nat)
}

/// An IPv4 address written with dots: `127.0.0.1`.
pub open spec fn dotted_ip(ip: Seq<u8>) -> Seq<char> {
    decimal(ip[0] as nat) + seq!['.'] + decimal(ip[1] as nat) + seq!['.'] + decimal(ip[2] as nat)
        + seq!['.'] + decimal(ip[3] as nat)
}

/// The xip host name of a service: `<name>-<encoded ip>.<domain>`.
pub open spec fn xip_hostname_spec(name: Seq<char>, ip: Seq<u8>, domain: Seq<char>) -> Result<
    Seq<char>,
    RoutingError,
> {
    match label_problem(name) {
        Some(p) => Err(RoutingError::Label(LabelKind::ServiceName, p)),
        None => {
            let first = name + seq!['-'] + encoded_ip(ip);
            if byte_len(first) > 63 {
                Err(RoutingError::FirstLabelTooLong)
            } else {
                let h = first + seq!['.'] + domain;
                if byte_len(h) > 253 {
                    Err(RoutingError::HostnameTooLong)
                } else {
                    Ok(h)
                }
            }
        },
    }
}

/// `value` without `suffix` compared ignoring ASCII case; `None` where
/// either text is not ASCII or `value` does not end with `suffix`.
pub open spec fn strip_suffix_ci(value: Seq<char>, suffix: Seq<char>) -> Option<Seq<char>> {
    if !all_ascii(value) || !all_ascii(suffix) || value.len() < suffix.len() {
        None
    } else {
        let split = value.len() - suffix.len();
        if eq_ignore_case(value.skip(split), suffix) {
            Some(value.take(split))
        } else {
            None
        }
    }
}

/// The index of the last `c` in `s`, if any.
pub open spec fn rfind(s: Seq<char>, c: char) -> Option<int>
    decreases s.len(),
{
    if s.len() == 0 {
        None
    } else if s.last() == c {
        Some(s.len() - 1)
    } else {
        rfind(s.drop_last(), c)
    }
}

/// A decimal number from 0 to 255, leading zeros allowed: what
/// `u8::from_str` accepts of a text made of digits.
pub open spec fn valid_octet(s: Seq<char>) -> bool {
    &&& s.len() > 0
    &&& forall|i: int| 0 <= i < s.len() ==> is_digit(#[trigger] s[i])
    &&& digits_value(s) <= 255
}

/// `label` without its last `k` hyphen-separated octets, taken from the
/// right as `rsplitn(k + 1, '-')` does; `None` where one of them is missing
/// or is not an octet.
pub open spec fn peel_octets(label: Seq<char>, k: nat) -> Option<Seq<char>>
    decreases k,
{
    if k == 0 {
        Some(label)
    } else {
        match rfind(label, '-') {
            Some(i) => if 0 <= i < label.len() && valid_octet(label.skip(i + 1)) {
                peel_octets(label.take(i), (k - 1) as nat)
            } else {
                None
            },
            None => if k == 1 && valid_octet(label) {
                Some(Seq::empty())
            } else {
                None
            },
        }
    }
}

/// The lower-cased text before `-<a>-<b>-<c>-<d>.<domain>` in `host`, where
/// the four octets form an IPv4 address (any address).
pub open spec fn xip_name_spec(host: Seq<char>, domain: Seq<char>) -> Option<Seq<char>> {
    match strip_suffix_ci(host, seq!['.'] + domain) {
        None => None,
        Some(label) => if label.contains('.') {
            None
        } else {
            match peel_octets(label, 4) {
                Some(rest) => Some(lower_seq(rest)),
                None => None,
            }
        },
    }
}

/// Xip routing: the zone and the address that generated URLs carry.
#[derive(Debug, Clone, PartialEq, Eq)]
pub struct XipRouting {
    domain: String,
    url_ip: [u8; 4],
}

impl XipRouting {
    /// The normalised zone.
    pub closed spec fn domain_view(self) -> Seq<char> {
        self.domain@
    }

    /// The address encoded in generated host names.
    pub closed spec fn ip_view(self) -> Seq<u8> {
        self.url_ip@
    }

    /// The normalised zone.
    pub fn domain(&self) -> (r: &str)
        ensures
            r@ == self.domain_view(),
    {
        self.domain.as_str()
    }

    /// The address encoded in generated host names.
    pub fn url_ip(&self) -> (r: [u8; 4])
        ensures
            r@ == self.ip_view(),
    {
        self.url_ip
    }
}

/// A routing whose xip zone is one that `normalize_domain` accepts as it is;
/// every routing that `HostRouting::xip` builds is one.
pub open spec fn routing_wf(r: HostRouting) -> bool {
    match r {
        HostRouting::Suffix(_) => true,
        HostRouting::Xip(x) => valid_domain(x.domain_view()) && x.ip_view().len() == 4,
    }
}

/// How host names map to services.
#[derive(Debug, Clone, PartialEq, Eq)]
pub enum HostRouting {
    Suffix(String),
    Xip(XipRouting),
}

impl HostRouting {
    /// The host name of service `name`.
    pub open spec fn hostname_spec(self, name: Seq<char>) -> Result<Seq<char>, RoutingError> {
        match self {
            HostRouting::Suffix(suffix) => if name.len() == 0 {
                Err(RoutingError::EmptyServiceName)
            } else {
                Ok(name + suffix@)
            },
            HostRouting::Xip(x) => xip_hostname_spec(name, x.ip_view(), x.domain_view()),
        }
    }

    /// The service that host name `host` addresses, before any prefix
    /// matching against registered names.
    pub open spec fn service_name_spec(self, host: Seq<char>) -> Option<Seq<char>> {
        let raw = match self {
            HostRouting::Suffix(suffix) => strip_suffix_ci(host, suffix@),
            HostRouting::Xip(x) => xip_name_spec(host, x.domain_view()),
        };
        match raw {
            Some(n) => if n.len() > 0 {
                Some(n)
            } else {
                None
            },
            None => None,
        }
    }

    /// The bare host name that serves the status page.
    pub open spec fn status_hostname_spec(self) -> Result<Seq<char>, RoutingError> {
        match self {
            HostRouting::Suffix(suffix) => {
                let t = suffix@.skip(leading_count(suffix@, '.') as int);
                if t.len() == 0 {
                    Err(RoutingError::NoBareHostname)
                } else {
                    Ok(lower_seq(t))
                }
            },
            HostRouting::Xip(x) => Ok(encoded_ip(x.ip_view()) + seq!['.'] + x.domain_view()),
        }
    }

    /// Whether `host` is the status-page host: the bare suffix (any case), or
    /// any encoded address directly under the xip zone.
    pub open spec fn is_status_host_spec(self, host: Seq<char>) -> bool {
        match self {
            HostRouting::Suffix(_) => match self.status_hostname_spec() {
                Ok(h) => eq_ignore_case(host, h),
                Err(_) => false,
            },
            HostRouting::Xip(x) => xip_name_spec(host, x.domain_view()) == Some(Seq::<char>::empty()),
        }
    }

    /// How the routing is described at start-up.
    pub open spec fn description_spec(self) -> Seq<char> {
        match self {
            HostRouting::Suffix(suffix) => "suffix "@ + debug_str(suffix@),
            HostRouting::Xip(x) => "xip domain "@ + debug_str(x.domain_view())
                + " generating URLs with address "@ + dotted_ip(x.ip_view()),
        }
    }

    /// How the routing is described at start-up: the quoted suffix, or the
    /// quoted xip zone and the address that URLs carry.
    pub fn description(&self) -> (r: String)
        ensures
            r@ == self.description_spec(),
    {
        match self {
            HostRouting::Suffix(suffix) => {
                let q = debug_quoted(suffix.as_str());
                concat("suffix ", q.as_str())
            },
            HostRouting::Xip(config) => {
                let q = debug_quoted(config.domain.as_str());
                let mut v = chars_of("xip domain ");
                let mut qc = chars_of(q.as_str());
                v.append(&mut qc);
                let mut g = chars_of(" generating URLs with address ");
                v.append(&mut g);
                let mut ip = encode_ip(config.url_ip, '.');
                v.append(&mut ip);
                string_of(&v)
            },
        }
    }

    /// Xip routing under `domain`, normalised, with generated URLs carrying
    /// `url_ip`.
    pub fn xip(domain: &str, url_ip: [u8; 4]) -> (r: Result<HostRouting, RoutingError>)
        ensures
            r matches Ok(h) ==> routing_wf(h),
            match (r, normalize_domain_spec(domain@)) {
                (Ok(HostRouting::Xip(x)), Ok(d)) => x.domain_view() == d && x.ip_view() == url_ip@,
                (Err(e), Err(f)) => e == f,
                _ => false,
            },
    {
        let domain = normalize_domain(domain)?;
        Ok(HostRouting::Xip(XipRouting { domain, url_ip }))
    }

    /// The host name of service `name`.
    pub fn hostname_for_service(&self, name: &str) -> (r: Result<String, RoutingError>)
        ensures
            match r {
                Ok(h) => self.hostname_spec(name@) == Ok::<Seq<char>, RoutingError>(h@),
                Err(e) => self.hostname_spec(name@) == Err::<Seq<char>, RoutingError>(e),
            },
    {
        match self {
            HostRouting::Suffix(suffix) => {
                let n = chars_of(name);
                if n.len() == 0 {
                    return Err(RoutingError::EmptyServiceName);
                }
                let mut v = n;
                let mut s = chars_of(suffix.as_str());
                v.append(&mut s);
                assert(v@ =~= name@ + suffix@);
                Ok(string_of(&v))
            },
            HostRouting::Xip(config) => {
                let n = chars_of(name);
                if let Some(p) = label_problem_of(&n) {
                    return Err(RoutingError::Label(LabelKind::ServiceName, p));
                }
                let mut first = n;
                first.push('-');
                let mut e = encode_ip(config.url_ip, '-');
                first.append(&mut e);
                assert(first@ =~= name@ + seq!['-'] + encoded_ip(config.url_ip@));
                if byte_len_exceeds(&first, 63) {
                    return Err(RoutingError::FirstLabelTooLong);
                }
                let mut h = first;
                h.push('.');
                let mut d = chars_of(config.domain.as_str());
                h.append(&mut d);
                assert(h@ =~= name@ + seq!['-'] + encoded_ip(config.url_ip@) + seq!['.']
                    + config.domain@);
                if byte_len_exceeds(&h, 253) {
                    return Err(RoutingError::HostnameTooLong);
                }
                Ok(string_of(&h))
            },
        }
    }

    /// The service that `host` addresses, before prefix matching.
    pub fn service_name_from_host(&self, host: &str) -> (r: Option<String>)
        ensures
            match r {
                Some(n) => self.service_name_spec(host@) == Some(n@),
                None => self.service_name_spec(host@) is None,
            },
    {
        let raw = match self {
            HostRouting::Suffix(suffix) => strip_suffix_ascii_case(host, suffix.as_str()),
            HostRouting::Xip(config) => xip_service_name_from_host(host, config.domain.as_str()),
        };
        match raw {
            Some(n) => {
                if n.as_str().is_empty() {
                    None
                } else {
                    Some(n)
                }
            },
            None => None,
        }
    }

    /// The bare host name of the status page.
    pub fn status_hostname(&self) -> (r: Result<String, RoutingError>)
        ensures
            match r {
                Ok(h) => self.status_hostname_spec() == Ok::<Seq<char>, RoutingError>(h@),
                Err(e) => self.status_hostname_spec() == Err::<Seq<char>, RoutingError>(e),
            },
    {
        match self {
            HostRouting::Suffix(suffix) => {
                let s = chars_of(suffix.as_str());
                let mut i: usize = 0;
                while i < s.len() && s[i] == '.'
                    invariant
                        i <= s.len(),
                        forall|j: int| 0 <= j < i ==> s@[j] == '.',
                    decreases s.len() - i,
                {
                    i = i + 1;
                }
                proof {
                    lemma_leading_count(s@, '.', i as int);
                }
                if i == s.len() {
                    return Err(RoutingError::NoBareHostname);
                }
                let t = slice_chars(&s, i, s.len());
                assert(t@ =~= s@.skip(i as int));
                let l = lower_chars(&t);
                Ok(string_of(&l))
            },
            HostRouting::Xip(config) => {
                let mut h = encode_ip(config.url_ip, '-');
                h.push('.');
                let mut d = chars_of(config.domain.as_str());
                h.append(&mut d);
                assert(h@ =~= encoded_ip(config.url_ip@) + seq!['.'] + config.domain@);
                Ok(string_of(&h))
            },
        }
    }

    /// Whether `host` is the status-page host.
    pub fn is_status_host(&self, host: &str) -> (r: bool)
        ensures
            r == self.is_status_host_spec(host@),
    {
        match self {
            HostRouting::Suffix(_) => match self.status_hostname() {
                Ok(h) => {
                    let a = chars_of(host);
                    let b = chars_of(h.as_str());
                    chars_eq_ignore_case(&a, &b)
                },
                Err(_) => false,
            },
            HostRouting::Xip(config) => match xip_service_name_from_host(
                host,
                config.domain.as_str(),
            ) {
                Some(n) => {
                    let e = n.as_str().is_empty();
                    assert(e ==> n@ =~= Seq::<char>::empty());
                    e
                },
                None => false,
            },
        }
    }
}

/// The characters of `ip` written as four decimal numbers joined by `sep`.
fn encode_ip(ip: [u8; 4], sep: char) -> (r: Vec<char>)
    ensures
        sep == '-' ==> r@ == encoded_ip(ip@),
        sep == '.' ==> r@ == dotted_ip(ip@),
{
    let mut r = decimal_chars(ip[0] as u64);
    r.push(sep);
    let mut b = decimal_chars(ip[1] as u64);
    r.append(&mut b);
    r.push(sep);
    let mut c = decimal_chars(ip[2] as u64);
    r.append(&mut c);
    r.push(sep);
    let mut d = decimal_chars(ip[3] as u64);
    r.append(&mut d);
    r
}

/// The first rule of a DNS label that `label` breaks.
fn label_problem_of(label: &[char]) -> (r: Option<LabelProblem>)
    ensures
        r == label_problem(label@),
{
    if label.len() == 0 {
        return Some(LabelProblem::Empty);
    }
    if byte_len_exceeds(label, 63) {
        return Some(LabelProblem::TooLong);
    }
    if !chars_all_ascii(label) {
        return Some(LabelProblem::NotAscii);
    }
    let mut i: usize = 0;
    while i < label.len()
        invariant
            i <= label.len(),
            label.len() > 0,
            byte_len(label@) <= 63,
            all_ascii(label@),
            forall|j: int| 0 <= j < i ==> label_char_ok(#[trigger] label@[j]),
        decreases label.len() - i,
    {
        let c = label[i];
        if !(('a' <= c && c <= 'z') || ('0' <= c && c <= '9') || c == '-') {
            assert(!label_char_ok(label@[i as int]));
            return Some(LabelProblem::BadCharacter);
        }
        i = i + 1;
    }
    if label[0] == '-' || label[label.len() - 1] == '-' {
        return Some(LabelProblem::HyphenAtEdge);
    }
    None
}

/// Checks that `label` is a DNS label of lower-case letters, digits and
/// inner hyphens, at most 63 bytes long.
pub fn validate_dns_label(label: &str, kind: LabelKind) -> (r: Result<(), RoutingError>)
    ensures
        match label_problem(label@) {
            Some(p) => r == Err::<(), RoutingError>(RoutingError::Label(kind, p)),
            None => r is Ok,
        },
{
    let c = chars_of(label);
    match label_problem_of(&c) {
        Some(p) => Err(RoutingError::Label(kind, p)),
        None => Ok(()),
    }
}

/// The problem of the first dot-separated label of `d` that has one.
fn first_label_problem(d: &[char]) -> (r: Option<LabelProblem>)
    ensures
        r == first_problem(split_char(d@, '.')),
{
    let mut pos: usize = 0;
    assert(d@.skip(0) =~= d@);
    loop
        invariant
            pos <= d.len(),
            first_problem(split_char(d@, '.')) == first_problem(split_char(d@.skip(pos as int), '.')),
        decreases d.len() - pos,
    {
        match find_char_from(d, '.', pos) {
            Some(i) => {
                proof {
                    lemma_find_from(d@, '.', pos as int);
                    lemma_split_char_step(d@, '.', pos as int, i as int);
                    let ls = split_char(d@.skip(pos as int), '.');
                    assert(ls[0] == d@.subrange(pos as int, i as int));
                    assert(ls.drop_first() =~= split_char(d@.skip(i + 1), '.'));
                }
                let label = slice_chars(d, pos, i);
                if let Some(p) = label_problem_of(&label) {
                    return Some(p);
                }
                pos = i + 1;
            },
            None => {
                proof {
                    lemma_find_from(d@, '.', pos as int);
                    lemma_split_char_last(d@, '.', pos as int);
                    let ls = split_char(d@.skip(pos as int), '.');
                    assert(ls.drop_first() =~= Seq::<Seq<char>>::empty());
                    assert(first_problem(ls.drop_first()) is None);
                    assert(ls[0] == d@.subrange(pos as int, d.len() as int));
                }
                let label = slice_chars(d, pos, d.len());
                return label_problem_of(&label);
            },
        }
    }
}

/// `domain` trimmed of white space and trailing dots and lower-cased, if it
/// is then a non-empty domain of at most 253 bytes whose labels are DNS
/// labels.
pub fn normalize_domain(domain: &str) -> (r: Result<String, RoutingError>)
    ensures
        match r {
            Ok(d) => normalize_domain_spec(domain@) == Ok::<Seq<char>, RoutingError>(d@),
            Err(e) => normalize_domain_spec(domain@) == Err::<Seq<char>, RoutingError>(e),
        },
{
    let c = chars_of(domain);
    let (a, b) = trim_bounds(&c);
    let t = slice_chars(&c, a, b);
    let mut end: usize = t.len();
    while end > 0 && t[end - 1] == '.'
        invariant
            end <= t.len(),
            forall|j: int| end <= j < t.len() ==> t@[j] == '.',
        decreases end,
    {
        end = end - 1;
    }
    proof {
        lemma_trailing_count(t@, '.', t.len() - end);
    }
    let kept = slice_chars(&t, 0, end);
    let d = lower_chars(&kept);
    assert(d@ == normalized_text(domain@)) by {
        assert(kept@ =~= t@.take(t.len() - trailing_count(t@, '.')));
    }
    if d.len() == 0 {
        return Err(RoutingError::EmptyDomain);
    }
    if byte_len_exceeds(&d, 253) {
        return Err(RoutingError::DomainTooLong);
    }
    match first_label_problem(&d) {
        Some(p) => Err(RoutingError::Label(LabelKind::DomainLabel, p)),
        None => Ok(string_of(&d)),
    }
}

/// `value` without `suffix`, compared ignoring ASCII case.
fn strip_suffix_chars(value: &[char], suffix: &[char]) -> (r: Option<Vec<char>>)
    ensures
        match r {
            Some(n) => strip_suffix_ci(value@, suffix@) == Some(n@),
            None => strip_suffix_ci(value@, suffix@) is None,
        },
{
    if !chars_all_ascii(value) || !chars_all_ascii(suffix) || value.len() < suffix.len() {
        return None;
    }
    let split = value.len() - suffix.len();
    let tail = slice_chars(value, split, value.len());
    assert(tail@ =~= value@.skip(split as int));
    if chars_eq_ignore_case(&tail, suffix) {
        let head = slice_chars(value, 0, split);
        assert(head@ =~= value@.take(split as int));
        Some(head)
    } else {
        None
    }
}

/// `value` without `suffix`, compared ignoring ASCII case; `None` where
/// either is not ASCII or `value` does not end with `suffix`.
pub fn strip_suffix_ascii_case(value: &str, suffix: &str) -> (r: Option<String>)
    ensures
        match r {
            Some(n) => strip_suffix_ci(value@, suffix@) == Some(n@),
            None => strip_suffix_ci(value@, suffix@) is None,
        },
{
    let v = chars_of(value);
    let s = chars_of(suffix);
    match strip_suffix_chars(&v, &s) {
        Some(n) => Some(string_of(&n)),
        None => None,
    }
}

/// The index of the last `c` in `s[..end]`.
fn rfind_before(s: &[char], end: usize, c: char) -> (r: Option<usize>)
    requires
        end <= s.len(),
    ensures
        match r {
            Some(i) => rfind(s@.take(end as int), c) == Some(i as int) && i < end,
            None => rfind(s@.take(end as int), c) is None,
        },
    decreases end,
{
    if end == 0 {
        None
    } else if s[end - 1] == c {
        Some(end - 1)
    } else {
        assert(s@.take(end as int).drop_last() =~= s@.take(end - 1));
        rfind_before(s, end - 1, c)
    }
}

proof fn lemma_digits_value_prefix(s: Seq<char>, j: int)
    requires
        0 <= j <= s.len(),
        forall|i: int| 0 <= i < s.len() ==> is_digit(#[trigger] s[i]),
    ensures
        digits_value(s) >= digits_value(s.take(j)),
    decreases s.len() - j,
{
    if j < s.len() {
        lemma_digits_value_prefix(s, j + 1);
        assert(s.take(j + 1).drop_last() =~= s.take(j));
    } else {
        assert(s.take(j) =~= s);
    }
}

/// Whether `s[from..to]` is an octet.
fn octet_ok(s: &[char], from: usize, to: usize) -> (r: bool)
    requires
        from <= to <= s.len(),
    ensures
        r == valid_octet(s@.subrange(from as int, to as int)),
{
    let ghost t = s@.subrange(from as int, to as int);
    if from == to {
        return false;
    }
    let mut i: usize = from;
    while i < to
        invariant
            from <= i <= to <= s.len(),
            t == s@.subrange(from as int, to as int),
            forall|j: int| 0 <= j < i - from ==> is_digit(#[trigger] t[j]),
        decreases to - i,
    {
        if !('0' <= s[i] && s[i] <= '9') {
            assert(!is_digit(t[i - from]));
            return false;
        }
        i = i + 1;
    }
    let mut v: u64 = 0;
    let mut k: usize = from;
    assert(t.take(0) =~= Seq::<char>::empty());
    while k < to
        invariant
            from <= k <= to <= s.len(),
            t == s@.subrange(from as int, to as int),
            forall|j: int| 0 <= j < t.len() ==> is_digit(#[trigger] t[j]),
            v == digits_value(t.take(k - from)),
            v <= 255,
        decreases to - k,
    {
        assert(is_digit(t[k - from]));
        let d = (s[k] as u32 - 48) as u64;
        assert(t.take(k - from + 1).drop_last() =~= t.take(k - from));
        assert(t.take(k - from + 1).last() == s@[k as int]);
        v = v * 10 + d;
        k = k + 1;
        if v > 255 {
            proof {
                lemma_digits_value_prefix(t, k - from);
            }
            return false;
        }
    }
    assert(t.take(k - from) =~= t);
    true
}

/// `label[..end]` without its last `k` octets: the end index of the rest.
fn peel(label: &[char], end: usize, k: usize) -> (r: Option<usize>)
    requires
        end <= label.len(),
    ensures
        match r {
            Some(e) => e <= end && peel_octets(label@.take(end as int), k as nat) == Some(
                label@.take(e as int),
            ),
            None => peel_octets(label@.take(end as int), k as nat) is None,
        },
    decreases k,
{
    let ghost s = label@.take(end as int);
    if k == 0 {
        return Some(end);
    }
    match rfind_before(label, end, '-') {
        Some(i) => {
            assert(s.skip(i + 1) =~= label@.subrange(i + 1, end as int));
            assert(s.take(i as int) =~= label@.take(i as int));
            if octet_ok(label, i + 1, end) {
                peel(label, i, k - 1)
            } else {
                None
            }
        },
        None => {
            assert(s =~= label@.subrange(0, end as int));
            if k == 1 && octet_ok(label, 0, end) {
                assert(label@.take(0) =~= Seq::<char>::empty());
                Some(0)
            } else {
                None
            }
        },
    }
}

/// The service part of an xip host name under `domain`: the lower-cased text
/// before `-<a>-<b>-<c>-<d>.<domain>`, which may be empty.
pub fn xip_service_name_from_host(host: &str, domain: &str) -> (r: Option<String>)
    ensures
        match r {
            Some(n) => xip_name_spec(host@, domain@) == Some(n@),
            None => xip_name_spec(host@, domain@) is None,
        },
{
    let h = chars_of(host);
    let mut suffix: Vec<char> = Vec::new();
    suffix.push('.');
    let mut d = chars_of(domain);
    suffix.append(&mut d);
    assert(suffix@ =~= seq!['.'] + domain@);
    let label = match strip_suffix_chars(&h, &suffix) {
        Some(l) => l,
        None => return None,
    };
    if let Some(i) = find_char_from(&label, '.', 0) {
        proof {
            lemma_find_from(label@, '.', 0);
            assert(label@[i as int] == '.');
        }
        return None;
    }
    proof {
        lemma_find_from(label@, '.', 0);
        if label@.contains('.') {
            let j = choose|j: int| 0 <= j < label@.len() && label@[j] == '.';
            assert(label@[j] == '.');
        }
    }
    assert(label@.take(label.len() as int) =~= label@);
    match peel(&label, label.len(), 4) {
        Some(e) => {
            let rest = slice_chars(&label, 0, e);
            assert(rest@ =~= label@.take(e as int));
            let l = lower_chars(&rest);
            Some(string_of(&l))
        },
        None => None,
    }
}


/// Every character of a valid domain is a label character or a dot, and the
/// domain neither starts nor ends with a dot.
proof fn lemma_valid_domain_chars(d: Seq<char>)
    requires
        first_problem(split_char(d, '.')) is None,
    ensures
        d.len() > 0,
        forall|i: int| 0 <= i < d.len() ==> #[trigger] d[i] == '.' || label_char_ok(d[i]),
        d[0] != '.',
        d.last() != '.',
    decreases d.len(),
{
    lemma_find_from(d, '.', 0);
    match find(d, '.') {
        Some(i) => {
            let ls = split_char(d, '.');
            let l = d.take(i);
            assert(ls[0] == l);
            assert(label_problem(l) is None);
            assert(ls.drop_first() =~= split_char(d.skip(i + 1), '.'));
            lemma_valid_domain_chars(d.skip(i + 1));
            assert forall|j: int| 0 <= j < d.len() implies #[trigger] d[j] == '.' || label_char_ok(
                d[j],
            ) by {
                if j < i {
                    assert(l[j] == d[j]);
                } else if j > i {
                    assert(d.skip(i + 1)[j - i - 1] == d[j]);
                }
            }
            assert(l[0] == d[0]);
            assert(d.skip(i + 1).last() == d.last());
        },
        None => {
            let ls = split_char(d, '.');
            assert(ls[0] == d);
            assert(label_problem(d) is None);
        },
    }
}

proof fn lemma_label_chars_lower(s: Seq<char>)
    requires
        forall|i: int| 0 <= i < s.len() ==> #[trigger] s[i] == '.' || label_char_ok(s[i]),
    ensures
        lower_seq(s) == s,
        all_ascii(s),
{
    assert(lower_seq(s) =~= s);
}

proof fn lemma_rfind_after_hyphen(a: Seq<char>, b: Seq<char>)
    requires
        forall|i: int| 0 <= i < b.len() ==> #[trigger] b[i] != '-',
    ensures
        rfind(a + seq!['-'] + b, '-') == Some(a.len() as int),
    decreases b.len(),
{
    let s = a + seq!['-'] + b;
    if b.len() > 0 {
        assert(s.last() == b.last());
        assert(s.drop_last() =~= a + seq!['-'] + b.drop_last());
        lemma_rfind_after_hyphen(a, b.drop_last());
    }
}

proof fn lemma_rfind_none(b: Seq<char>)
    requires
        forall|i: int| 0 <= i < b.len() ==> #[trigger] b[i] != '-',
    ensures
        rfind(b, '-') is None,
    decreases b.len(),
{
    if b.len() > 0 {
        assert(b.drop_last().len() < b.len());
        lemma_rfind_none(b.drop_last());
    }
}

proof fn lemma_octet_text(x: u8)
    ensures
        valid_octet(decimal(x as nat)),
        forall|i: int| 0 <= i < decimal(x as nat).len() ==> #[trigger] decimal(x as nat)[i] != '-'
            && decimal(x as nat)[i] != '.' && label_char_ok(decimal(x as nat)[i]),
{
    crate::text::lemma_decimal_digits(x as nat);
}

proof fn lemma_peel_step(a: Seq<char>, x: u8, k: nat)
    ensures
        peel_octets(a + seq!['-'] + decimal(x as nat), k + 1) == peel_octets(a, k),
{
    let b = decimal(x as nat);
    let s = a + seq!['-'] + b;
    lemma_octet_text(x);
    lemma_rfind_after_hyphen(a, b);
    assert(s.skip(a.len() + 1int) =~= b);
    assert(s.take(a.len() as int) =~= a);
}

proof fn lemma_encoded_ip_chars(ip: Seq<u8>)
    requires
        ip.len() == 4,
    ensures
        forall|i: int| 0 <= i < encoded_ip(ip).len() ==> #[trigger] encoded_ip(ip)[i] != '.'
            && label_char_ok(encoded_ip(ip)[i]),
{
    lemma_octet_text(ip[0]);
    lemma_octet_text(ip[1]);
    lemma_octet_text(ip[2]);
    lemma_octet_text(ip[3]);
    let e = encoded_ip(ip);
    let d0 = decimal(ip[0] as nat);
    let d1 = decimal(ip[1] as nat);
    let d2 = decimal(ip[2] as nat);
    let d3 = decimal(ip[3] as nat);
    assert forall|i: int| 0 <= i < e.len() implies #[trigger] e[i] != '.' && label_char_ok(e[i]) by {
        let n0 = d0.len() as int;
        let n1 = n0 + 1 + d1.len();
        let n2 = n1 + 1 + d2.len();
        if i < n0 {
            assert(e[i] == d0[i]);
        } else if i == n0 {
            assert(e[i] == '-');
        } else if i < n1 {
            assert(e[i] == d1[i - n0 - 1]);
        } else if i == n1 {
            assert(e[i] == '-');
        } else if i < n2 {
            assert(e[i] == d2[i - n1 - 1]);
        } else if i == n2 {
            assert(e[i] == '-');
        } else {
            assert(e[i] == d3[i - n2 - 1]);
        }
    }
}

/// Peeling the four octets off `<a>-<ip>` leaves `a`.
proof fn lemma_peel_encoded(a: Seq<char>, ip: Seq<u8>)
    requires
        ip.len() == 4,
    ensures
        peel_octets(a + seq!['-'] + encoded_ip(ip), 4) == Some(a),
{
    let d0 = decimal(ip[0] as nat);
    let d1 = decimal(ip[1] as nat);
    let d2 = decimal(ip[2] as nat);
    let d3 = decimal(ip[3] as nat);
    let s0 = a + seq!['-'] + d0;
    let s1 = s0 + seq!['-'] + d1;
    let s2 = s1 + seq!['-'] + d2;
    let s3 = s2 + seq!['-'] + d3;
    assert(s3 =~= a + seq!['-'] + encoded_ip(ip));
    lemma_peel_step(s2, ip[3], 3);
    lemma_peel_step(s1, ip[2], 2);
    lemma_peel_step(s0, ip[1], 1);
    lemma_peel_step(a, ip[0], 0);
}

/// Peeling the four octets off a bare encoded address leaves nothing.
proof fn lemma_peel_bare(ip: Seq<u8>)
    requires
        ip.len() == 4,
    ensures
        peel_octets(encoded_ip(ip), 4) == Some(Seq::<char>::empty()),
{
    let d0 = decimal(ip[0] as nat);
    let d1 = decimal(ip[1] as nat);
    let d2 = decimal(ip[2] as nat);
    let d3 = decimal(ip[3] as nat);
    let s1 = d0 + seq!['-'] + d1;
    let s2 = s1 + seq!['-'] + d2;
    let s3 = s2 + seq!['-'] + d3;
    assert(s3 =~= encoded_ip(ip));
    lemma_peel_step(s2, ip[3], 3);
    lemma_peel_step(s1, ip[2], 2);
    lemma_peel_step(d0, ip[1], 1);
    lemma_octet_text(ip[0]);
    lemma_rfind_none(d0);
    assert(peel_octets(d0, 1) == Some(Seq::<char>::empty()));
}

/// Stripping `.<domain>` from `<label>.<domain>` with an ASCII domain and
/// label gives the label back.
proof fn lemma_strip_own_suffix(label: Seq<char>, domain: Seq<char>)
    requires
        all_ascii(label),
        all_ascii(domain),
    ensures
        strip_suffix_ci(label + seq!['.'] + domain, seq!['.'] + domain) == Some(label),
{
    let h = label + seq!['.'] + domain;
    let suffix = seq!['.'] + domain;
    assert(h =~= label + suffix);
    assert forall|i: int| 0 <= i < h.len() implies (#[trigger] h[i] as u32) < 128 by {
        if i < label.len() {
            assert(h[i] == label[i]);
        } else if i > label.len() {
            assert(h[i] == domain[i - label.len() - 1]);
        }
    }
    assert forall|i: int| 0 <= i < suffix.len() implies (#[trigger] suffix[i] as u32) < 128 by {
        if i > 0 {
            assert(suffix[i] == domain[i - 1]);
        }
    }
    assert(h.skip(label.len() as int) =~= suffix);
    assert(h.take(label.len() as int) =~= label);
}

/// What ASCII lower-casing keeps of one character.
proof fn lemma_lower_keeps(c: char)
    ensures
        (lower(c) == '-') == (c == '-'),
        (lower(c) == '.') == (c == '.'),
        is_digit(lower(c)) == is_digit(c),
        is_digit(c) ==> lower(c) == c,
        (lower(c) as u32) < 128 ==> (c as u32) < 128,
        (c as u32) < 128 ==> (lower(c) as u32) < 128,
{
}

/// Texts equal up to ASCII case agree in length and at every index.
proof fn lemma_same_ci(a: Seq<char>, b: Seq<char>)
    requires
        lower_seq(a) == lower_seq(b),
    ensures
        a.len() == b.len(),
        forall|i: int| 0 <= i < a.len() ==> lower(#[trigger] a[i]) == lower(b[i]),
{
    assert(lower_seq(a).len() == a.len());
    assert(lower_seq(b).len() == b.len());
    assert forall|i: int| 0 <= i < a.len() implies lower(#[trigger] a[i]) == lower(b[i]) by {
        assert(lower_seq(a)[i] == lower(a[i]));
        assert(lower_seq(b)[i] == lower(b[i]));
        assert(lower_seq(a)[i] == lower_seq(b)[i]);
    }
}

/// Equality up to ASCII case carries over to slices.
proof fn lemma_same_ci_slices(a: Seq<char>, b: Seq<char>, i: int, j: int)
    requires
        lower_seq(a) == lower_seq(b),
        0 <= i <= j <= a.len(),
    ensures
        lower_seq(a.subrange(i, j)) == lower_seq(b.subrange(i, j)),
{
    lemma_same_ci(a, b);
    assert(lower_seq(a.subrange(i, j)) =~= lower_seq(b.subrange(i, j)));
}

/// Texts equal up to ASCII case have their hyphens at the same places.
proof fn lemma_rfind_hyphen_ci(a: Seq<char>, b: Seq<char>)
    requires
        lower_seq(a) == lower_seq(b),
    ensures
        rfind(a, '-') == rfind(b, '-'),
    decreases a.len(),
{
    lemma_same_ci(a, b);
    if a.len() > 0 {
        lemma_lower_keeps(a.last());
        lemma_lower_keeps(b.last());
        assert(lower(a[a.len() - 1]) == lower(b[a.len() - 1]));
        lemma_same_ci_slices(a, b, 0, a.len() - 1);
        assert(a.drop_last() =~= a.subrange(0, a.len() - 1));
        assert(b.drop_last() =~= b.subrange(0, a.len() - 1));
        lemma_rfind_hyphen_ci(a.drop_last(), b.drop_last());
    }
}

/// Texts equal up to ASCII case are octets alike, and are then equal.
proof fn lemma_valid_octet_ci(a: Seq<char>, b: Seq<char>)
    requires
        lower_seq(a) == lower_seq(b),
    ensures
        valid_octet(a) == valid_octet(b),
        valid_octet(a) ==> a == b,
{
    lemma_same_ci(a, b);
    assert forall|i: int| 0 <= i < a.len() implies is_digit(#[trigger] a[i]) == is_digit(b[i]) by {
        lemma_lower_keeps(a[i]);
        lemma_lower_keeps(b[i]);
    }
    if valid_octet(a) {
        assert forall|i: int| 0 <= i < a.len() implies #[trigger] a[i] == b[i] by {
            lemma_lower_keeps(a[i]);
            lemma_lower_keeps(b[i]);
        }
        assert(a =~= b);
    }
    if valid_octet(b) {
        assert forall|i: int| 0 <= i < a.len() implies #[trigger] a[i] == b[i] by {
            lemma_lower_keeps(a[i]);
            lemma_lower_keeps(b[i]);
        }
        assert(a =~= b);
    }
}

/// Peeling octets off labels equal up to ASCII case succeeds for both or
/// neither, and leaves texts equal up to ASCII case.
proof fn lemma_peel_ci(a: Seq<char>, b: Seq<char>, k: nat)
    requires
        lower_seq(a) == lower_seq(b),
    ensures
        peel_octets(a, k) is Some == peel_octets(b, k) is Some,
        peel_octets(a, k) is Some ==> lower_seq(peel_octets(a, k)->0) == lower_seq(
            peel_octets(b, k)->0,
        ),
    decreases k,
{
    lemma_same_ci(a, b);
    if k > 0 {
        lemma_rfind_hyphen_ci(a, b);
        match rfind(a, '-') {
            Some(i) => {
                if 0 <= i < a.len() {
                    lemma_same_ci_slices(a, b, i + 1, a.len() as int);
                    assert(a.skip(i + 1) =~= a.subrange(i + 1, a.len() as int));
                    assert(b.skip(i + 1) =~= b.subrange(i + 1, a.len() as int));
                    lemma_valid_octet_ci(a.skip(i + 1), b.skip(i + 1));
                    lemma_same_ci_slices(a, b, 0, i);
                    assert(a.take(i) =~= a.subrange(0, i));
                    assert(b.take(i) =~= b.subrange(0, i));
                    lemma_peel_ci(a.take(i), b.take(i), (k - 1) as nat);
                }
            },
            None => {
                lemma_valid_octet_ci(a, b);
            },
        }
    }
}

/// The xip service name of a host depends on the host only up to ASCII case.
proof fn lemma_xip_name_ci(a: Seq<char>, b: Seq<char>, domain: Seq<char>)
    requires
        lower_seq(a) == lower_seq(b),
    ensures
        xip_name_spec(a, domain) == xip_name_spec(b, domain),
{
    lemma_same_ci(a, b);
    let suffix = seq!['.'] + domain;
    if all_ascii(a) {
        assert forall|i: int| 0 <= i < b.len() implies (#[trigger] b[i] as u32) < 128 by {
            assert((a[i] as u32) < 128);
            lemma_lower_keeps(a[i]);
            lemma_lower_keeps(b[i]);
        }
    }
    if all_ascii(b) {
        assert forall|i: int| 0 <= i < a.len() implies (#[trigger] a[i] as u32) < 128 by {
            assert((b[i] as u32) < 128);
            lemma_lower_keeps(a[i]);
            lemma_lower_keeps(b[i]);
        }
    }
    assert(all_ascii(a) == all_ascii(b));
    if all_ascii(a) && all_ascii(suffix) && a.len() >= suffix.len() {
        let split = a.len() - suffix.len();
        lemma_same_ci_slices(a, b, split, a.len() as int);
        assert(a.skip(split) =~= a.subrange(split, a.len() as int));
        assert(b.skip(split) =~= b.subrange(split, a.len() as int));
        lemma_same_ci_slices(a, b, 0, split);
        let la = a.subrange(0, split);
        let lb = b.subrange(0, split);
        assert(a.take(split) =~= la);
        assert(b.take(split) =~= lb);
        if eq_ignore_case(a.skip(split), suffix) {
            lemma_same_ci(la, lb);
            assert(la.contains('.') == lb.contains('.')) by {
                if la.contains('.') {
                    let j = choose|j: int| 0 <= j < la.len() && la[j] == '.';
                    lemma_lower_keeps(la[j]);
                    lemma_lower_keeps(lb[j]);
                    assert(lb[j] == '.');
                }
                if lb.contains('.') {
                    let j = choose|j: int| 0 <= j < lb.len() && lb[j] == '.';
                    lemma_lower_keeps(la[j]);
                    lemma_lower_keeps(lb[j]);
                    assert(la[j] == '.');
                }
            }
            lemma_peel_ci(la, lb, 4);
        }
    }
}

/// Xip routing: any spelling of the generated host name that differs only
/// in ASCII case (an upper-cased one, say) addresses the service too.
pub proof fn lemma_xip_hostname_round_trip_any_case(routing: HostRouting, name: Seq<char>, host: Seq<char>)
    requires
        routing is Xip,
        routing_wf(routing),
        routing.hostname_spec(name) is Ok,
        eq_ignore_case(host, routing.hostname_spec(name)->Ok_0),
    ensures
        routing.service_name_spec(host) == Some(name),
{
    lemma_xip_hostname_round_trip(routing, name);
    let x = routing->Xip_0;
    lemma_xip_name_ci(host, routing.hostname_spec(name)->Ok_0, x.domain_view());
}

/// Xip routing: the host name generated for a service addresses that
/// service again.
pub proof fn lemma_xip_hostname_round_trip(routing: HostRouting, name: Seq<char>)
    requires
        routing is Xip,
        routing_wf(routing),
        routing.hostname_spec(name) is Ok,
    ensures
        routing.service_name_spec(routing.hostname_spec(name)->Ok_0) == Some(name),
{
    let x = routing->Xip_0;
    let domain = x.domain_view();
    let ip = x.ip_view();
    let label = name + seq!['-'] + encoded_ip(ip);
    let h = label + seq!['.'] + domain;
    assert(routing.hostname_spec(name) == Ok::<Seq<char>, RoutingError>(h));
    assert(label_problem(name) is None);
    lemma_valid_domain_chars(domain);
    lemma_label_chars_lower(domain);
    lemma_encoded_ip_chars(ip);
    assert forall|i: int| 0 <= i < label.len() implies #[trigger] label[i] != '.' && label_char_ok(
        label[i],
    ) by {
        if i < name.len() {
            assert(label[i] == name[i]);
        } else if i > name.len() {
            assert(label[i] == encoded_ip(ip)[i - name.len() - 1]);
        }
    }
    lemma_label_chars_lower(label);
    lemma_strip_own_suffix(label, domain);
    assert(!label.contains('.'));
    lemma_peel_encoded(name, ip);
    lemma_label_chars_lower(name);
}

/// Suffix routing: the host name generated for a service with an ASCII name
/// under an ASCII suffix addresses that service again.
pub proof fn lemma_suffix_hostname_round_trip(suffix: String, name: Seq<char>)
    requires
        name.len() > 0,
        all_ascii(name),
        all_ascii(suffix@),
    ensures
        HostRouting::Suffix(suffix).hostname_spec(name) == Ok::<Seq<char>, RoutingError>(
            name + suffix@,
        ),
        HostRouting::Suffix(suffix).service_name_spec(name + suffix@) == Some(name),
{
    let h = name + suffix@;
    assert forall|i: int| 0 <= i < h.len() implies (#[trigger] h[i] as u32) < 128 by {
        if i < name.len() {
            assert(h[i] == name[i]);
        } else {
            assert(h[i] == suffix@[i - name.len()]);
        }
    }
    assert(h.skip(name.len() as int) =~= suffix@);
    assert(h.take(name.len() as int) =~= name);
}

/// The status-page host name is recognised as the status-page host.
pub proof fn lemma_status_hostname_is_status_host(routing: HostRouting)
    requires
        routing_wf(routing),
        routing.status_hostname_spec() is Ok,
    ensures
        routing.is_status_host_spec(routing.status_hostname_spec()->Ok_0),
{
    match routing {
        HostRouting::Suffix(_) => {},
        HostRouting::Xip(x) => {
            let domain = x.domain_view();
            let ip = x.ip_view();
            let e = encoded_ip(ip);
            lemma_valid_domain_chars(domain);
            lemma_label_chars_lower(domain);
            lemma_encoded_ip_chars(ip);
            lemma_label_chars_lower(e);
            lemma_strip_own_suffix(e, domain);
            assert(!e.contains('.'));
            lemma_peel_bare(ip);
            assert(lower_seq(Seq::<char>::empty()) =~= Seq::<char>::empty());
        },
    }
}

/// The host name generated for a service is never the status-page host.
pub proof fn lemma_service_hostname_is_not_status_host(routing: HostRouting, name: Seq<char>)
    requires
        routing_wf(routing),
        routing.hostname_spec(name) is Ok,
    ensures
        !routing.is_status_host_spec(routing.hostname_spec(name)->Ok_0),
{
    match routing {
        HostRouting::Suffix(suffix) => {
            let h = name + suffix@;
            let t = suffix@.skip(leading_count(suffix@, '.') as int);
            if routing.status_hostname_spec() is Ok {
                crate::text::lemma_leading_count_bound(suffix@, '.');
                assert(lower_seq(h).len() != lower_seq(lower_seq(t)).len());
            }
        },
        HostRouting::Xip(x) => {
            lemma_xip_hostname_round_trip(routing, name);
        },
    }
}

/// Normalising a normalised domain changes nothing.
pub proof fn lemma_normalize_domain_idempotent(domain: Seq<char>)
    requires
        normalize_domain_spec(domain) is Ok,
    ensures
        valid_domain(normalize_domain_spec(domain)->Ok_0),
        normalize_domain_spec(normalize_domain_spec(domain)->Ok_0) == normalize_domain_spec(domain),
{
    let n = normalize_domain_spec(domain)->Ok_0;
    lemma_valid_domain_normalizes(n);
}

/// A valid domain is its own normalised text.
proof fn lemma_valid_domain_normalizes(n: Seq<char>)
    requires
        valid_domain(n),
    ensures
        normalized_text(n) == n,
        normalize_domain_spec(n) == Ok::<Seq<char>, RoutingError>(n),
{
    lemma_valid_domain_chars(n);
    lemma_label_chars_lower(n);
    assert(!crate::text::is_space(n[0]));
    assert(!crate::text::is_space(n.last()));
    assert(crate::text::leading_space(n) == 0);
    assert(n.skip(0) =~= n);
    assert(crate::text::trailing_space(n) == 0);
    assert(trim(n) =~= n);
    assert(trailing_count(n, '.') == 0);
    assert(n.take(n.len() as int) =~= n);
    assert(normalized_text(n) == n);
}

/// A DNS label as routing takes it: 1 to 63 bytes of lower-case ASCII
/// letters, digits and hyphens, with no hyphen first or last.
pub open spec fn is_dns_label(l: Seq<char>) -> bool {
    &&& l.len() > 0
    &&& byte_len(l) <= 63
    &&& forall|i: int|
        0 <= i < l.len() ==> ('a' <= #[trigger] l[i] && l[i] <= 'z') || ('0' <= l[i] && l[i] <= '9')
            || l[i] == '-'
    &&& l[0] != '-'
    &&& l.last() != '-'
}

/// The labels that routing accepts are exactly the DNS labels: hyphens
/// inside a label are allowed, at its edges they are not.
pub proof fn lemma_label_problem_exactly_outside_dns_labels(l: Seq<char>)
    ensures
        label_problem(l) is None <==> is_dns_label(l),
{
    if is_dns_label(l) {
        assert forall|i: int| 0 <= i < l.len() implies (#[trigger] l[i] as u32) < 128 by {
            assert(('a' <= l[i] && l[i] <= 'z') || ('0' <= l[i] && l[i] <= '9') || l[i] == '-');
        }
        assert forall|i: int| 0 <= i < l.len() implies label_char_ok(#[trigger] l[i]) by {
            assert(('a' <= l[i] && l[i] <= 'z') || ('0' <= l[i] && l[i] <= '9') || l[i] == '-');
        }
    }
    if label_problem(l) is None {
        assert forall|i: int|
            0 <= i < l.len() implies ('a' <= #[trigger] l[i] && l[i] <= 'z') || ('0' <= l[i] && l[i]
            <= '9') || l[i] == '-' by {
            assert(label_char_ok(l[i]));
        }
    }
}

/// Xip routing: a service whose name is a DNS label gets the host name
/// `<name>-<encoded address>.<domain>`, as long as the first label fits in
/// 63 bytes and the whole name in 253.
pub proof fn lemma_xip_hostname_of_dns_label(routing: HostRouting, name: Seq<char>)
    requires
        routing is Xip,
        is_dns_label(name),
        byte_len(name + seq!['-'] + encoded_ip(routing->Xip_0.ip_view())) <= 63,
        byte_len(
            name + seq!['-'] + encoded_ip(routing->Xip_0.ip_view()) + seq!['.']
                + routing->Xip_0.domain_view(),
        ) <= 253,
    ensures
        routing.hostname_spec(name) == Ok::<Seq<char>, RoutingError>(
            name + seq!['-'] + encoded_ip(routing->Xip_0.ip_view()) + seq!['.']
                + routing->Xip_0.domain_view(),
        ),
{
    lemma_label_problem_exactly_outside_dns_labels(name);
}

proof fn lemma_dns_labels_have_no_problem(labels: Seq<Seq<char>>)
    requires
        forall|i: int| 0 <= i < labels.len() ==> is_dns_label(#[trigger] labels[i]),
    ensures
        first_problem(labels) is None,
    decreases labels.len(),
{
    if labels.len() > 0 {
        lemma_label_problem_exactly_outside_dns_labels(labels[0]);
        assert forall|i: int| 0 <= i < labels.drop_first().len() implies is_dns_label(
            #[trigger] labels.drop_first()[i],
        ) by {
            assert(labels.drop_first()[i] == labels[i + 1]);
        }
        lemma_dns_labels_have_no_problem(labels.drop_first());
    }
}

/// An xip zone of at most 253 bytes whose dot-separated labels are all DNS
/// labels (hyphens inside them included) is accepted as it is.
pub proof fn lemma_domain_of_dns_labels_is_accepted(d: Seq<char>)
    requires
        byte_len(d) <= 253,
        forall|i: int|
            0 <= i < split_char(d, '.').len() ==> is_dns_label(#[trigger] split_char(d, '.')[i]),
    ensures
        normalize_domain_spec(d) == Ok::<Seq<char>, RoutingError>(d),
{
    lemma_dns_labels_have_no_problem(split_char(d, '.'));
    lemma_valid_domain_chars(d);
    lemma_valid_domain_normalizes(d);
}
} // verus!
