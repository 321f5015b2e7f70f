//! Answering requests on the proxy port: choosing the service that a
//! request addresses, and the status page served on the bare routing host.

use vstd::prelude::*;
use crate::daemon::http::{
    header_spec, http_response, http_response_spec, method_path_spec, parse_header,
    referer_route_spec, request_method_path, rewrite_path_route, rewrite_spec,
    route_name_from_referer,
};
use crate::daemon::registry::{has_name, name_at, Registry};
use crate::daemon::routing::HostRouting;
use crate::daemon::status::{rows_spec, status_json_spec};
use crate::text::{
    before, before_chars, chars_eq_ignore_case, chars_of, eq_ignore_case, json_quoted, json_string,
    slice_chars, str_eq, string_of, trim, trim_bounds,
};

verus! {

/// The status page: a script that polls `/api/status` every two seconds
/// and offers a stop button per service.
pub const STATUS_HTML_SHELL: &'static str = r#"<!DOCTYPE html>
<html lang="en">
<head>
<meta charset="utf-8">
<title>lazy status</title>
<style>
body{font-family:ui-monospace,monospace;margin:2rem}
table{border-collapse:collapse;width:100%}
th,td{text-align:left;padding:.5em;border-bottom:1px solid #ddd}
th{background:#f5f5f5}
.detail{font-style:italic;color:#666}
.stop-link{appearance:none;border:0;background:none;padding:0;font:inherit;color:#06c;text-decoration:underline;cursor:pointer}
.stop-link:focus-visible{outline:2px solid currentColor;outline-offset:2px}
.stop-link:disabled{color:#888;text-decoration:none;cursor:default}
.error{color:#c00}
.loading{color:#666}
</style>
</head>
<body>
<h1>lazy services</h1>
<p id="action-error" class="error" hidden></p>
<div id="root"><p class="loading">loading&hellip;</p></div>
<script>
(function(){
  const root = document.getElementById("root");
  const actionError = document.getElementById("action-error");
  const stopping = new Set();

  const showMessage = (message, className) => {
    const p = document.createElement("p");
    if (className) p.className = className;
    p.textContent = message;
    root.replaceChildren(p);
  };

  const showActionError = message => {
    actionError.textContent = message;
    actionError.hidden = !message;
  };

  const refresh = async () => {
    try {
      const response = await fetch("/api/status");
      if (!response.ok) throw new Error(response.statusText);
      const services = await response.json();
      if (services.length === 0) {
        showMessage("no services registered");
        return;
      }

      const table = document.createElement("table");
      const header = document.createElement("tr");
      ["NAME","KIND","STATE","URL","UPSTREAM","DETAIL","ACTION"].forEach(label => {
        const th = document.createElement("th");
        th.textContent = label;
        header.appendChild(th);
      });
      table.appendChild(header);

      services.forEach(service => {
        if (service.state === "dormant" || service.state === "failed") {
          stopping.delete(service.name);
        }
        const row = document.createElement("tr");
        ["name","kind","state","url","upstream","detail"].forEach(field => {
          const td = document.createElement("td");
          if (field === "url" && service.url !== "-") {
            const link = document.createElement("a");
            link.setAttribute("href", service.url);
            link.textContent = service.url;
            td.appendChild(link);
          } else {
            td.textContent = service[field];
          }
          if (field === "detail") td.className = "detail";
          row.appendChild(td);
        });

        const action = document.createElement("td");
        const button = document.createElement("button");
        const canStop = service.state === "starting" || service.state === "ready";
        button.type = "button";
        button.className = "stop-link";
        button.disabled = !canStop || stopping.has(service.name);
        button.textContent = "Stop";
        if (canStop) {
          button.addEventListener("click", async () => {
            stopping.add(service.name);
            button.disabled = true;
            showActionError("");
            try {
              const response = await fetch("/api/stop", {
                method: "POST",
                headers: {
                  "Content-Type": "application/json",
                  "X-Lazy-Service": service.name
                },
                body: "{}"
              });
              if (!response.ok) {
                const body = await response.json().catch(() => ({}));
                throw new Error(body.error || response.statusText);
              }
              await refresh();
            } catch (error) {
              stopping.delete(service.name);
              button.disabled = false;
              showActionError("stop failed: " + error.message);
            }
          });
        }
        action.appendChild(button);
        row.appendChild(action);
        table.appendChild(row);
      });
      root.replaceChildren(table);
    } catch (error) {
      showMessage("fetch error: " + error.message, "error");
    }
  };

  const poll = async () => {
    await refresh();
    setTimeout(poll, 2000);
  };
  poll();
})();
</script>
</body>
</html>"#;

/// Where a request goes: the service it addresses.
#[derive(Debug, Clone)]
pub struct ProxyRoute {
    pub name: String,
}

/// Registered service `r` answers for the xip name `name`: `name` is `r`,
/// or ends with `-` followed by `r` (a prefix before the service).
pub open spec fn xip_match(name: Seq<char>, r: Seq<char>) -> bool {
    name == r || (name.len() > r.len() && name.skip(name.len() - r.len()) == r && name[name.len()
        - r.len() - 1] == '-')
}

/// Some registered service answers for the xip name `name`.
pub open spec fn has_xip_match(reg: Registry, name: Seq<char>) -> bool {
    exists|i: int| 0 <= i < reg.entries().len() && xip_match(name, #[trigger] name_at(reg.entries(), i))
}

/// `r` is the longest registered name that answers for `name`.
pub open spec fn longest_xip_match(reg: Registry, name: Seq<char>, r: Seq<char>) -> bool {
    &&& has_name(reg.entries(), r)
    &&& xip_match(name, r)
    &&& forall|i: int|
        0 <= i < reg.entries().len() && xip_match(name, #[trigger] name_at(reg.entries(), i))
            ==> name_at(reg.entries(), i).len() <= r.len()
}

/// The request host is the path-routing host.
pub open spec fn on_path_host(reg: Registry, host: Seq<char>) -> bool {
    match reg.path_host() {
        Some(h) => eq_ignore_case(host, h),
        None => false,
    }
}

/// Whether the content type is JSON (parameters after `;` ignored).
pub open spec fn json_content_type(buffer: Seq<u8>) -> bool {
    match header_spec(buffer, "content-type"@) {
        Some(v) => eq_ignore_case(trim(before(v, ';')), "application/json"@),
        None => false,
    }
}

/// What the status host answers.
#[derive(Debug, Clone)]
pub enum StatusAction {
    /// Not a status-page request: route it as usual.
    NotStatus,
    /// Send this response.
    Respond(String),
    /// Stop this service, then answer with `stop_response`.
    Stop(String),
}

/// The JSON content type of the status API.
pub open spec fn json_type() -> Seq<char> {
    "application/json; charset=utf-8"@
}

/// The status host's answer to a request.
pub open spec fn status_action_spec(reg: Registry, host: Seq<char>, buffer: Seq<u8>) -> Option<
    Result<Seq<char>, Seq<char>>,
> {
    if !reg.routing().is_status_host_spec(host) {
        None
    } else {
        match method_path_spec(buffer) {
            Some((m, p)) => if m == "GET"@ && p == "/api/status"@ {
                Some(
                    Ok(
                        http_response_spec(
                            "200 OK"@,
                            json_type(),
                            status_json_spec(rows_spec(reg)),
                        ),
                    ),
                )
            } else if m == "POST"@ && p == "/api/stop"@ {
                if !json_content_type(buffer) {
                    Some(
                        Ok(
                            http_response_spec(
                                "415 Unsupported Media Type"@,
                                json_type(),
                                "{\"error\":\"content type must be application/json\"}"@,
                            ),
                        ),
                    )
                } else {
                    match header_spec(buffer, "x-lazy-service"@) {
                        Some(n) if n.len() > 0 => if has_name(reg.entries(), n) {
                            Some(Err(n))
                        } else {
                            Some(
                                Ok(
                                    http_response_spec(
                                        "404 Not Found"@,
                                        json_type(),
                                        "{\"error\":\"service not registered\"}"@,
                                    ),
                                ),
                            )
                        },
                        _ => Some(
                            Ok(
                                http_response_spec(
                                    "400 Bad Request"@,
                                    json_type(),
                                    "{\"error\":\"missing X-Lazy-Service header\"}"@,
                                ),
                            ),
                        ),
                    }
                }
            } else if m == "GET"@ && p == "/"@ {
                Some(
                    Ok(
                        http_response_spec(
                            "200 OK"@,
                            "text/html; charset=utf-8"@,
                            STATUS_HTML_SHELL@,
                        ),
                    ),
                )
            } else {
                None
            },
            None => None,
        }
    }
}

/// The answer to a stop request from the status page, after the stop was
/// sent (`Ok`) or failed with an error.
pub open spec fn stop_response_spec(result: Result<(), Seq<char>>) -> Seq<char> {
    match result {
        Ok(()) => http_response_spec("202 Accepted"@, json_type(), "{\"ok\":true}"@),
        Err(e) => http_response_spec(
            "500 Internal Server Error"@,
            json_type(),
            "{\"error\":"@ + json_string(e) + "}"@,
        ),
    }
}

/// The answer to a stop request from the status page.
pub fn stop_response(result: Result<(), &str>) -> (r: String)
    ensures
        r@ == stop_response_spec(
            match result {
                Ok(()) => Ok(()),
                Err(e) => Err(e@),
            },
        ),
{
    match result {
        Ok(()) => http_response("202 Accepted", "application/json; charset=utf-8", "{\"ok\":true}"),
        Err(e) => {
            let mut v = chars_of("{\"error\":");
            let q = json_quoted(e);
            let mut qc = chars_of(q.as_str());
            v.append(&mut qc);
            let mut close = chars_of("}");
            v.append(&mut close);
            let body = string_of(&v);
            assert(body@ =~= "{\"error\":"@ + json_string(e@) + "}"@);
            http_response("500 Internal Server Error", "application/json; charset=utf-8", body.as_str())
        },
    }
}

fn is_json_content_type(buffer: &[u8]) -> (r: bool)
    ensures
        r == json_content_type(buffer@),
{
    match parse_header(buffer, "content-type") {
        Some(v) => {
            let c = chars_of(v);
            let b = before_chars(&c, ';');
            let (x, y) = trim_bounds(&b);
            let t = slice_chars(&b, x, y);
            let j = chars_of("application/json");
            chars_eq_ignore_case(&t, &j)
        },
        None => false,
    }
}

impl Registry {
    /// What the status host answers to the request in `buffer` for `host`:
    /// `GET /` the page, `GET /api/status` the JSON rows, `POST /api/stop`
    /// a stop of the service named in `X-Lazy-Service` (JSON content type
    /// required); anything else, or another host, is not a status request.
    pub fn status_action(&self, host: &str, buffer: &[u8]) -> (r: StatusAction)
        requires
            self.wf(),
        ensures
            match status_action_spec(*self, host@, buffer@) {
                None => r is NotStatus,
                Some(Ok(resp)) => r matches StatusAction::Respond(t) && t@ == resp,
                Some(Err(name)) => r matches StatusAction::Stop(n) && n@ == name,
            },
    {
        if !self.host_routing().is_status_host(host) {
            return StatusAction::NotStatus;
        }
        let (m, p) = match request_method_path(buffer) {
            Some(x) => x,
            None => return StatusAction::NotStatus,
        };
        if str_eq(m, "GET") && str_eq(p, "/api/status") {
            let body = self.status_json();
            return StatusAction::Respond(
                http_response("200 OK", "application/json; charset=utf-8", body.as_str()),
            );
        }
        if str_eq(m, "POST") && str_eq(p, "/api/stop") {
            if !is_json_content_type(buffer) {
                return StatusAction::Respond(
                    http_response(
                        "415 Unsupported Media Type",
                        "application/json; charset=utf-8",
                        "{\"error\":\"content type must be application/json\"}",
                    ),
                );
            }
            let name = match parse_header(buffer, "x-lazy-service") {
                Some(n) => {
                    if n.is_empty() {
                        None
                    } else {
                        Some(n)
                    }
                },
                None => None,
            };
            let name = match name {
                Some(n) => n,
                None => {
                    return StatusAction::Respond(
                        http_response(
                            "400 Bad Request",
                            "application/json; charset=utf-8",
                            "{\"error\":\"missing X-Lazy-Service header\"}",
                        ),
                    );
                },
            };
            if !self.has_service(name) {
                return StatusAction::Respond(
                    http_response(
                        "404 Not Found",
                        "application/json; charset=utf-8",
                        "{\"error\":\"service not registered\"}",
                    ),
                );
            }
            return StatusAction::Stop(string_of(&chars_of(name)));
        }
        if str_eq(m, "GET") && str_eq(p, "/") {
            return StatusAction::Respond(
                http_response("200 OK", "text/html; charset=utf-8", STATUS_HTML_SHELL),
            );
        }
        StatusAction::NotStatus
    }

    /// Whether some registered service answers for the xip name `name`, and
    /// the longest such name.
    fn longest_match(&self, name: &str) -> (r: Option<String>)
        requires
            self.wf(),
        ensures
            match r {
                Some(n) => longest_xip_match(*self, name@, n@),
                None => !has_xip_match(*self, name@),
            },
    {
        let c = chars_of(name);
        let mut best: Option<usize> = None;
        let mut i: usize = 0;
        let n = self.len();
        while i < n
            invariant
                i <= n,
                n == self.entries().len(),
                c@ == name@,
                match best {
                    Some(b) => b < i && xip_match(name@, name_at(self.entries(), b as int))
                        && forall|j: int|
                        0 <= j < i && xip_match(name@, #[trigger] name_at(self.entries(), j))
                            ==> name_at(self.entries(), j).len() <= name_at(self.entries(), b as int).len(),
                    None => forall|j: int|
                        0 <= j < i ==> !xip_match(name@, #[trigger] name_at(self.entries(), j)),
                },
            decreases n - i,
        {
            let s = self.service(i);
            let r = chars_of(s.register.name.as_str());
            if xip_matches(&c, &r) {
                let longer = match best {
                    Some(b) => r.len() >= self.service(b).register.name.as_str().unicode_len(),
                    None => true,
                };
                if longer {
                    best = Some(i);
                }
            }
            i = i + 1;
        }
        match best {
            Some(b) => {
                let s = self.service(b);
                assert(has_name(self.entries(), name_at(self.entries(), b as int)));
                Some(string_of(&chars_of(s.register.name.as_str())))
            },
            None => None,
        }
    }

    /// The service that a request for `host` addresses. On the path-routing
    /// host, the first path segment names it (and is removed from the
    /// request in `buffer`) or else the referer's first path segment does;
    /// either must be registered. Elsewhere the host name does: with xip
    /// routing the longest registered name that it ends with, after `-`, is
    /// taken, if any.
    pub fn route_for_request(&self, host: &str, buffer: &mut Vec<u8>) -> (r: Option<ProxyRoute>)
        requires
            self.wf(),
        ensures
            if on_path_host(*self, host@) {
                match rewrite_spec(old(buffer)@) {
                    Some((name, bytes)) if has_name(self.entries(), name) => r matches Some(
                        route,
                    ) && route.name@ == name && final(buffer)@ == bytes,
                    _ => final(buffer)@ == old(buffer)@ && match referer_route_spec(
                        old(buffer)@,
                        host@,
                    ) {
                        Some(n) if has_name(self.entries(), n) => r matches Some(route)
                            && route.name@ == n,
                        _ => r is None,
                    },
                }
            } else {
                &&& final(buffer)@ == old(buffer)@
                &&& match self.routing().service_name_spec(host@) {
                    None => r is None,
                    Some(n) => r matches Some(route) && if self.routing() is Xip && has_xip_match(
                        *self,
                        n,
                    ) {
                        longest_xip_match(*self, n, route.name@)
                    } else {
                        route.name@ == n
                    },
                }
            },
    {
        let on_host = match self.route_host() {
            Some(h) => {
                let a = chars_of(host);
                let b = chars_of(h);
                chars_eq_ignore_case(&a, &b)
            },
            None => false,
        };
        if on_host {
            let original = vstd::slice::slice_to_vec(buffer.as_slice());
            if let Some(name) = rewrite_path_route(buffer) {
                if self.has_service(name.as_str()) {
                    return Some(ProxyRoute { name });
                }
                *buffer = original;
            }
            if let Some(name) = route_name_from_referer(buffer.as_slice(), host) {
                if self.has_service(name.as_str()) {
                    return Some(ProxyRoute { name });
                }
            }
            return None;
        }
        let name = match self.host_routing().service_name_from_host(host) {
            Some(n) => n,
            None => return None,
        };
        match self.host_routing() {
            HostRouting::Xip(_) => {
                match self.longest_match(name.as_str()) {
                    Some(r) => Some(ProxyRoute { name: r }),
                    None => Some(ProxyRoute { name }),
                }
            },
            HostRouting::Suffix(_) => Some(ProxyRoute { name }),
        }
    }
}

/// Whether registered name `r` answers for the xip name `name`.
fn xip_matches(name: &[char], r: &[char]) -> (b: bool)
    ensures
        b == xip_match(name@, r@),
{
    if crate::text::chars_eq(name, r) {
        return true;
    }
    if name.len() <= r.len() {
        return false;
    }
    let k = name.len() - r.len();
    let tail = slice_chars(name, k, name.len());
    assert(tail@ =~= name@.skip(k as int));
    crate::text::chars_eq(&tail, r) && name[k - 1] == '-'
}

/// Xip routing: a request for the host name generated for a registered
/// service reaches that service, whatever other services are registered.
pub proof fn lemma_registered_xip_hostname_routes_to_it(reg: Registry, name: Seq<char>)
    requires
        reg.wf(),
        crate::daemon::routing::routing_wf(reg.routing()),
        reg.routing() is Xip,
        has_name(reg.entries(), name),
        reg.routing().hostname_spec(name) is Ok,
    ensures
        reg.routing().service_name_spec(reg.routing().hostname_spec(name)->Ok_0) == Some(name),
        has_xip_match(reg, name),
        forall|r: Seq<char>| longest_xip_match(reg, name, r) ==> r == name,
{
    crate::daemon::routing::lemma_xip_hostname_round_trip(reg.routing(), name);
    let i = choose|i: int| 0 <= i < reg.entries().len() && name_at(reg.entries(), i) == name;
    assert(xip_match(name, name_at(reg.entries(), i)));
    assert forall|r: Seq<char>| longest_xip_match(reg, name, r) implies r == name by {
        assert(name_at(reg.entries(), i).len() <= r.len());
    }
}

/// Xip routing: a request for the host name of `prefix-name`, where `name`
/// is a registered service, is routed by the name `prefix-name`, which a
/// registered service answers; the service chosen is `name` or a longer
/// registered name that also matches.
pub proof fn lemma_prefixed_xip_hostname_routes_to_a_match(
    reg: Registry,
    prefix: Seq<char>,
    name: Seq<char>,
)
    requires
        reg.wf(),
        crate::daemon::routing::routing_wf(reg.routing()),
        reg.routing() is Xip,
        has_name(reg.entries(), name),
        reg.routing().hostname_spec(prefix + seq!['-'] + name) is Ok,
    ensures
        reg.routing().service_name_spec(reg.routing().hostname_spec(prefix + seq!['-'] + name)->Ok_0)
            == Some(prefix + seq!['-'] + name),
        has_xip_match(reg, prefix + seq!['-'] + name),
        forall|r: Seq<char>|
            longest_xip_match(reg, prefix + seq!['-'] + name, r) ==> r.len() >= name.len(),
{
    let full = prefix + seq!['-'] + name;
    crate::daemon::routing::lemma_xip_hostname_round_trip(reg.routing(), full);
    let i = choose|i: int| 0 <= i < reg.entries().len() && name_at(reg.entries(), i) == name;
    assert(full.skip(full.len() - name.len()) =~= name);
    assert(full[full.len() - name.len() - 1] == '-');
    assert(xip_match(full, name_at(reg.entries(), i)));
    assert forall|r: Seq<char>| longest_xip_match(reg, full, r) implies r.len() >= name.len() by {
        assert(name_at(reg.entries(), i).len() <= r.len());
    }
}

} // verus!
