//! Public URLs and the status of the registered services, as a table for
//! `lazy status` and as JSON for the status page.

use vstd::prelude::*;
use crate::daemon::registry::{Registry, Service, ServiceState};
use crate::daemon::routing::{routing_error_text, HostRouting, RoutingError};
use crate::ipc::ProcessKind;
use crate::text::{chars_of, decimal, decimal_chars, join, json_quoted, json_string, lemma_join_push, string_of};

verus! {

/// One row of the status table.
#[derive(Debug, Clone)]
pub struct StatusRow {
    pub name: String,
    pub kind: String,
    pub state: String,
    pub url: String,
    pub upstream: String,
    pub detail: String,
}

/// The text of the six columns of a row.
pub open spec fn row_view(r: StatusRow) -> Seq<Seq<char>> {
    seq![r.name@, r.kind@, r.state@, r.url@, r.upstream@, r.detail@]
}

/// `s` with tabs, carriage returns and line feeds replaced by spaces, so that
/// it fits in one cell of the table.
pub open spec fn sanitize_spec(s: Seq<char>) -> Seq<char> {
    Seq::new(
        s.len(),
        |i: int|
            if s[i] == '\t' || s[i] == '\r' || s[i] == '\n' {
                ' '
            } else {
                s[i]
            },
    )
}

/// The public URL of service `name`: under the path-routing host when there
/// is one, else at the service's host name; `https` with TLS; the port left
/// out when it is the scheme's default.
pub open spec fn url_spec(reg: Registry, name: Seq<char>) -> Result<Seq<char>, RoutingError> {
    let scheme = if reg.tls() {
        "https"@
    } else {
        "http"@
    };
    let default_port: u16 = if reg.tls() {
        443
    } else {
        80
    };
    let port_part = if reg.port() == default_port {
        Seq::<char>::empty()
    } else {
        seq![':'] + decimal(reg.port() as nat)
    };
    match reg.path_host() {
        Some(h) => Ok(scheme + "://"@ + h + port_part + seq!['/'] + name + seq!['/']),
        None => match reg.routing().hostname_spec(name) {
            Ok(host) => Ok(scheme + "://"@ + host + port_part),
            Err(e) => Err(e),
        },
    }
}

/// The status row of a service.
pub open spec fn row_spec(reg: Registry, s: Service) -> Seq<Seq<char>> {
    let kind = match s.register.kind {
        ProcessKind::Http => "http"@,
        ProcessKind::Worker => "worker"@,
    };
    let state = match s.state {
        ServiceState::Dormant => "dormant"@,
        ServiceState::Starting => "starting"@,
        ServiceState::Ready => "ready"@,
        ServiceState::Failed => "failed"@,
    };
    let url = match s.register.kind {
        ProcessKind::Http => match url_spec(reg, s.register.name@) {
            Ok(u) => u,
            Err(e) => "invalid service name: "@ + routing_error_text(e),
        },
        ProcessKind::Worker => "-"@,
    };
    let upstream = match s.active_port {
        Some(p) => "127.0.0.1:"@ + decimal(p as nat),
        None => "-"@,
    };
    let detail = match s.last_error {
        Some(e) => sanitize_spec(e@),
        None => "-"@,
    };
    seq![s.register.name@, kind, state, url, upstream, detail]
}

/// The status rows of a registry, one per service in registration order.
pub open spec fn rows_spec(reg: Registry) -> Seq<Seq<Seq<char>>> {
    Seq::new(reg.entries().len(), |i: int| row_spec(reg, reg.entries()[i]))
}

/// The header line of the status table.
pub open spec fn status_header() -> Seq<char> {
    "NAME\tKIND\tSTATE\tURL\tUPSTREAM\tDETAIL"@
}

/// The status table: a header and one tab-separated line per service, each
/// ended by a line feed; a fixed sentence where there are no services.
pub open spec fn status_text_spec(rows: Seq<Seq<Seq<char>>>) -> Seq<char> {
    if rows.len() == 0 {
        "no services registered\n"@
    } else {
        join(
            seq![status_header()] + Seq::new(rows.len(), |i: int| join(rows[i], seq!['\t'])),
            seq!['\n'],
        ) + seq!['\n']
    }
}

/// The JSON object of one row, with fields in column order.
pub open spec fn row_json(row: Seq<Seq<char>>) -> Seq<char> {
    "{\"name\":"@ + json_string(row[0]) + ",\"kind\":"@ + json_string(row[1]) + ",\"state\":"@
        + json_string(row[2]) + ",\"url\":"@ + json_string(row[3]) + ",\"upstream\":"@
        + json_string(row[4]) + ",\"detail\":"@ + json_string(row[5]) + "}"@
}

/// The JSON array of the rows.
pub open spec fn status_json_spec(rows: Seq<Seq<Seq<char>>>) -> Seq<char> {
    seq!['['] + join(Seq::new(rows.len(), |i: int| row_json(rows[i])), seq![',']) + seq![']']
}

/// Tabs, carriage returns and line feeds in `detail` replaced by spaces.
pub fn sanitize_status_detail(detail: &str) -> (r: String)
    ensures
        r@ == sanitize_spec(detail@),
{
    let c = chars_of(detail);
    let mut out: Vec<char> = Vec::new();
    let mut i: usize = 0;
    while i < c.len()
        invariant
            i <= c.len(),
            c@ == detail@,
            out@ == sanitize_spec(c@).take(i as int),
        decreases c.len() - i,
    {
        let x = c[i];
        if x == '\t' || x == '\r' || x == '\n' {
            out.push(' ');
        } else {
            out.push(x);
        }
        i = i + 1;
        assert(out@ =~= sanitize_spec(c@).take(i as int));
    }
    assert(sanitize_spec(c@).take(c.len() as int) =~= sanitize_spec(c@));
    string_of(&out)
}

/// Appends the text of `s` to `v`.
fn push_str(v: &mut Vec<char>, s: &str)
    ensures
        final(v)@ == old(v)@ + s@,
{
    let mut c = chars_of(s);
    v.append(&mut c);
}

impl Registry {
    /// The public URL of service `name`.
    pub fn url_for_service(&self, name: &str) -> (r: Result<String, RoutingError>)
        ensures
            match r {
                Ok(u) => url_spec(*self, name@) == Ok::<Seq<char>, RoutingError>(u@),
                Err(e) => url_spec(*self, name@) == Err::<Seq<char>, RoutingError>(e),
            },
    {
        let tls = self.tls_enabled();
        let port = self.public_port();
        let scheme = if tls {
            "https"
        } else {
            "http"
        };
        let default_port: u16 = if tls {
            443
        } else {
            80
        };
        let mut port_part: Vec<char> = Vec::new();
        if port != default_port {
            port_part.push(':');
            let mut d = decimal_chars(port as u64);
            port_part.append(&mut d);
        }
        let mut v: Vec<char> = Vec::new();
        push_str(&mut v, scheme);
        push_str(&mut v, "://");
        match self.route_host() {
            Some(h) => {
                let ghost pp = port_part@;
                push_str(&mut v, h);
                v.append(&mut port_part);
                v.push('/');
                push_str(&mut v, name);
                v.push('/');
                assert(v@ =~= scheme@ + "://"@ + h@ + pp + seq!['/'] + name@ + seq!['/']);
                Ok(string_of(&v))
            },
            None => {
                let ghost pp = port_part@;
                let host = self.host_routing().hostname_for_service(name)?;
                push_str(&mut v, host.as_str());
                v.append(&mut port_part);
                assert(v@ =~= scheme@ + "://"@ + host@ + pp);
                Ok(string_of(&v))
            },
        }
    }

    /// The status row of service `i`.
    fn row(&self, i: usize) -> (r: StatusRow)
        requires
            i < self.entries().len(),
        ensures
            row_view(r) == row_spec(*self, self.entries()[i as int]),
    {
        let s = self.service(i);
        let name = string_of(&chars_of(s.register.name.as_str()));
        let kind = match s.register.kind {
            ProcessKind::Http => string_of(&chars_of("http")),
            ProcessKind::Worker => string_of(&chars_of("worker")),
        };
        let state = match s.state {
            ServiceState::Dormant => string_of(&chars_of("dormant")),
            ServiceState::Starting => string_of(&chars_of("starting")),
            ServiceState::Ready => string_of(&chars_of("ready")),
            ServiceState::Failed => string_of(&chars_of("failed")),
        };
        let url = match s.register.kind {
            ProcessKind::Http => match self.url_for_service(s.register.name.as_str()) {
                Ok(u) => u,
                Err(e) => {
                    let mut v = chars_of("invalid service name: ");
                    let m = e.message();
                    push_str(&mut v, m.as_str());
                    string_of(&v)
                },
            },
            ProcessKind::Worker => string_of(&chars_of("-")),
        };
        let upstream = match s.active_port {
            Some(p) => {
                let mut v = chars_of("127.0.0.1:");
                let mut d = decimal_chars(p as u64);
                v.append(&mut d);
                string_of(&v)
            },
            None => string_of(&chars_of("-")),
        };
        let detail = match &s.last_error {
            Some(e) => sanitize_status_detail(e.as_str()),
            None => string_of(&chars_of("-")),
        };
        let r = StatusRow { name, kind, state, url, upstream, detail };
        assert(row_view(r) =~= row_spec(*self, self.entries()[i as int]));
        r
    }

    /// The status rows, one per service in registration order.
    pub fn collect_rows(&self) -> (r: Vec<StatusRow>)
        ensures
            r@.len() == self.entries().len(),
            forall|i: int| 0 <= i < r@.len() ==> row_view(#[trigger] r@[i]) == rows_spec(*self)[i],
    {
        let mut rows: Vec<StatusRow> = Vec::new();
        let n = self.len();
        let mut i: usize = 0;
        while i < n
            invariant
                i <= n,
                n == self.entries().len(),
                rows@.len() == i,
                forall|j: int| 0 <= j < i ==> row_view(#[trigger] rows@[j]) == rows_spec(*self)[j],
            decreases n - i,
        {
            let r = self.row(i);
            rows.push(r);
            i = i + 1;
        }
        rows
    }

    /// The status table for `lazy status`.
    pub fn status(&self) -> (r: String)
        ensures
            r@ == status_text_spec(rows_spec(*self)),
    {
        let rows = self.collect_rows();
        assert(Seq::new(rows@.len(), |i: int| row_view(rows@[i])) =~= rows_spec(*self));
        format_status(&rows)
    }

    /// The status rows as a JSON array of objects.
    pub fn status_json(&self) -> (r: String)
        ensures
            r@ == status_json_spec(rows_spec(*self)),
    {
        let rows = self.collect_rows();
        assert(Seq::new(rows@.len(), |i: int| row_view(rows@[i])) =~= rows_spec(*self));
        format_status_json(&rows)
    }
}

/// The columns of a row joined by tabs.
fn row_line(r: &StatusRow) -> (out: Vec<char>)
    ensures
        out@ == join(row_view(*r), seq!['\t']),
{
    let ghost t = seq!['\t'];
    let mut v = chars_of(r.name.as_str());
    proof {
        lemma_join_push(Seq::<Seq<char>>::empty(), r.name@, t);
        assert(Seq::<Seq<char>>::empty().push(r.name@) =~= seq![r.name@]);
    }
    v.push('\t');
    push_str(&mut v, r.kind.as_str());
    proof {
        lemma_join_push(seq![r.name@], r.kind@, t);
        assert(seq![r.name@].push(r.kind@) =~= seq![r.name@, r.kind@]);
        assert(v@ =~= join(seq![r.name@], t) + t + r.kind@);
    }
    v.push('\t');
    push_str(&mut v, r.state.as_str());
    proof {
        lemma_join_push(seq![r.name@, r.kind@], r.state@, t);
        assert(seq![r.name@, r.kind@].push(r.state@) =~= seq![r.name@, r.kind@, r.state@]);
        assert(v@ =~= join(seq![r.name@, r.kind@], t) + t + r.state@);
    }
    v.push('\t');
    push_str(&mut v, r.url.as_str());
    proof {
        lemma_join_push(seq![r.name@, r.kind@, r.state@], r.url@, t);
        assert(seq![r.name@, r.kind@, r.state@].push(r.url@) =~= seq![r.name@, r.kind@, r.state@, r.url@]);
        assert(v@ =~= join(seq![r.name@, r.kind@, r.state@], t) + t + r.url@);
    }
    v.push('\t');
    push_str(&mut v, r.upstream.as_str());
    proof {
        let w4 = seq![r.name@, r.kind@, r.state@, r.url@];
        lemma_join_push(w4, r.upstream@, t);
        assert(w4.push(r.upstream@) =~= seq![r.name@, r.kind@, r.state@, r.url@, r.upstream@]);
        assert(v@ =~= join(w4, t) + t + r.upstream@);
    }
    v.push('\t');
    push_str(&mut v, r.detail.as_str());
    proof {
        let w5 = seq![r.name@, r.kind@, r.state@, r.url@, r.upstream@];
        lemma_join_push(w5, r.detail@, t);
        assert(w5.push(r.detail@) =~= row_view(*r));
        assert(v@ =~= join(w5, t) + t + r.detail@);
    }
    v
}

/// The status table of `rows`.
pub fn format_status(rows: &Vec<StatusRow>) -> (r: String)
    ensures
        r@ == status_text_spec(Seq::new(rows@.len(), |i: int| row_view(rows@[i]))),
{
    let ghost rs = Seq::new(rows@.len(), |i: int| row_view(rows@[i]));
    if rows.len() == 0 {
        return string_of(&chars_of("no services registered\n"));
    }
    let ghost body = Seq::new(rs.len(), |i: int| join(rs[i], seq!['\t']));
    let ghost lines = seq![status_header()] + body;
    assert forall|k: int| 0 <= k < rows.len() implies #[trigger] lines[k + 1] == join(
        row_view(rows@[k]),
        seq!['\t'],
    ) by {
        assert(lines[k + 1] == body[k]);
    }
    let mut v = chars_of("NAME\tKIND\tSTATE\tURL\tUPSTREAM\tDETAIL");
    let mut i: usize = 0;
    proof {
        lemma_join_push(Seq::<Seq<char>>::empty(), status_header(), seq!['\n']);
        assert(lines.take(1) =~= Seq::<Seq<char>>::empty().push(status_header()));
    }
    while i < rows.len()
        invariant
            i <= rows.len(),
            lines.len() == rows.len() + 1,
            forall|k: int| 0 <= k < rows.len() ==> #[trigger] lines[k + 1] == join(row_view(rows@[k]), seq!['\t']),
            v@ == join(lines.take(i + 1), seq!['\n']),
        decreases rows.len() - i,
    {
        v.push('\n');
        let mut l = row_line(&rows[i]);
        v.append(&mut l);
        proof {
            let t = lines.take(i + 2);
            assert(t =~= lines.take(i + 1).push(lines[i + 1]));
            lemma_join_push(lines.take(i + 1), lines[i + 1], seq!['\n']);
        }
        i = i + 1;
    }
    v.push('\n');
    assert(lines.take(rows.len() + 1) =~= lines);
    string_of(&v)
}

/// The JSON object of a row.
fn row_object(r: &StatusRow) -> (out: Vec<char>)
    ensures
        out@ == row_json(row_view(*r)),
{
    let mut v = chars_of("{\"name\":");
    push_str(&mut v, json_quoted(r.name.as_str()).as_str());
    push_str(&mut v, ",\"kind\":");
    push_str(&mut v, json_quoted(r.kind.as_str()).as_str());
    push_str(&mut v, ",\"state\":");
    push_str(&mut v, json_quoted(r.state.as_str()).as_str());
    push_str(&mut v, ",\"url\":");
    push_str(&mut v, json_quoted(r.url.as_str()).as_str());
    push_str(&mut v, ",\"upstream\":");
    push_str(&mut v, json_quoted(r.upstream.as_str()).as_str());
    push_str(&mut v, ",\"detail\":");
    push_str(&mut v, json_quoted(r.detail.as_str()).as_str());
    push_str(&mut v, "}");
    assert(v@ =~= row_json(row_view(*r)));
    v
}

/// The JSON array of `rows`.
pub fn format_status_json(rows: &Vec<StatusRow>) -> (r: String)
    ensures
        r@ == status_json_spec(Seq::new(rows@.len(), |i: int| row_view(rows@[i]))),
{
    let ghost rs = Seq::new(rows@.len(), |i: int| row_view(rows@[i]));
    let ghost objs = Seq::new(rs.len(), |i: int| row_json(rs[i]));
    let mut v: Vec<char> = Vec::new();
    let mut i: usize = 0;
    assert(objs.take(0) =~= Seq::<Seq<char>>::empty());
    while i < rows.len()
        invariant
            i <= rows.len(),
            rs == Seq::new(rows@.len(), |k: int| row_view(rows@[k])),
            objs == Seq::new(rs.len(), |k: int| row_json(rs[k])),
            v@ == join(objs.take(i as int), seq![',']),
        decreases rows.len() - i,
    {
        if i > 0 {
            v.push(',');
        }
        let mut o = row_object(&rows[i]);
        v.append(&mut o);
        i = i + 1;
        proof {
            let t = objs.take(i as int);
            assert(t.drop_last() =~= objs.take(i - 1));
            assert(t.last() == row_json(rs[i - 1]));
            if i == 1 {
                assert(objs.take(0) =~= Seq::<Seq<char>>::empty());
            }
        }
    }
    assert(objs.take(rows.len() as int) =~= objs);
    let mut out: Vec<char> = Vec::new();
    out.push('[');
    out.append(&mut v);
    out.push(']');
    string_of(&out)
}

/// The KIND and STATE columns tell the service's kind and state: `http` or
/// `worker`, and `dormant`, `starting`, `ready` or `failed`, each exactly for
/// the matching value, so services in different states (or of different
/// kinds) show different texts. The NAME column is the service's name.
pub proof fn lemma_status_columns_tell_kind_and_state(reg: Registry, s: Service, t: Service)
    ensures
        row_spec(reg, s).len() == 6,
        row_spec(reg, s)[0] == s.register.name@,
        (row_spec(reg, s)[1] == "http"@) == (s.register.kind == ProcessKind::Http),
        (row_spec(reg, s)[1] == "worker"@) == (s.register.kind == ProcessKind::Worker),
        (row_spec(reg, s)[2] == "dormant"@) == (s.state == ServiceState::Dormant),
        (row_spec(reg, s)[2] == "starting"@) == (s.state == ServiceState::Starting),
        (row_spec(reg, s)[2] == "ready"@) == (s.state == ServiceState::Ready),
        (row_spec(reg, s)[2] == "failed"@) == (s.state == ServiceState::Failed),
        s.state != t.state ==> row_spec(reg, s)[2] != row_spec(reg, t)[2],
        s.register.kind != t.register.kind ==> row_spec(reg, s)[1] != row_spec(reg, t)[1],
{
    reveal_strlit("http");
    reveal_strlit("worker");
    reveal_strlit("dormant");
    reveal_strlit("starting");
    reveal_strlit("ready");
    reveal_strlit("failed");
    let a = row_spec(reg, s)[2];
    let b = row_spec(reg, t)[2];
    assert("dormant"@.len() == 7 && "starting"@.len() == 8 && "ready"@.len() == 5
        && "failed"@.len() == 6);
    match s.state {
        ServiceState::Dormant => {
            assert(a.len() == 7);
        },
        ServiceState::Starting => {
            assert(a.len() == 8);
        },
        ServiceState::Ready => {
            assert(a.len() == 5);
        },
        ServiceState::Failed => {
            assert(a.len() == 6);
        },
    }
    if s.state != t.state {
        assert(a.len() != b.len());
    }
    if s.register.kind != t.register.kind {
        assert(row_spec(reg, s)[1].len() != row_spec(reg, t)[1].len());
    }
}

/// A public URL uses `https` exactly when TLS is on: it starts with
/// `https://` then, and with `http://` otherwise, with path routing as with
/// host-name routing. Under path routing it is on the routing host and ends
/// with `/<name>/`.
pub proof fn lemma_url_scheme_follows_tls(reg: Registry, name: Seq<char>)
    ensures
        url_spec(reg, name) matches Ok(u) ==> if reg.tls() {
            u.take(8) == "https://"@
        } else {
            u.take(7) == "http://"@ && u.take(8) != "https://"@
        },
        reg.path_host() matches Some(h) ==> (url_spec(reg, name) matches Ok(u) && {
            let start: int = if reg.tls() {
                8
            } else {
                7
            };
            &&& u.subrange(start, start + h.len()) == h
            &&& u.skip(u.len() - name.len() - 2) == seq!['/'] + name + seq!['/']
        }),
{
    reveal_strlit("https");
    reveal_strlit("http");
    reveal_strlit("://");
    reveal_strlit("https://");
    reveal_strlit("http://");
    match url_spec(reg, name) {
        Ok(u) => {
            let scheme = if reg.tls() {
                "https"@
            } else {
                "http"@
            };
            let head = scheme + "://"@;
            assert(u.take(head.len() as int) =~= head);
            if reg.tls() {
                assert(head =~= "https://"@);
            } else {
                assert(head =~= "http://"@);
                assert(u[4] == ':');
                assert("https://"@[4] == 's');
            }
            if let Some(h) = reg.path_host() {
                let default_port: u16 = if reg.tls() {
                    443
                } else {
                    80
                };
                let port_part = if reg.port() == default_port {
                    Seq::<char>::empty()
                } else {
                    seq![':'] + decimal(reg.port() as nat)
                };
                assert(u == head + h + port_part + seq!['/'] + name + seq!['/']);
                assert(u.subrange(head.len() as int, (head.len() + h.len()) as int) =~= h);
                assert(u.skip(u.len() - name.len() - 2) =~= seq!['/'] + name + seq!['/']);
            }
        },
        Err(_) => {},
    }
}

} // verus!
