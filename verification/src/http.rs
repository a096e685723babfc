//! How the HTTP server is laid out: its paths, the hosts it answers to, and what
//! it says when it starts.

use vstd::prelude::*;
use vstd::string::StringExecFns;

use crate::text::{chars_of, join, text_of};
#[allow(unused_imports)]
use crate::bundle::download_url;
#[allow(unused_imports)]
use crate::text::{joined, texts};

verus! {

/// What stands in front of the endpoint: the path without a closing `/mcp`, or the
/// whole path where it ends otherwise.
pub open spec fn secret_prefix(path: Seq<char>) -> Seq<char> {
    if "/mcp"@.is_suffix_of(path) {
        path.take(path.len() - 4)
    } else {
        path
    }
}

/// The path under which the ZIPs are served.
pub open spec fn downloads_path(path: Seq<char>) -> Seq<char> {
    secret_prefix(path) + "/downloads"@
}

/// What stands in front of the endpoint.
pub fn secret_prefix_of(path: &str) -> (r: String)
    ensures
        r@ == secret_prefix(path@),
{
    proof {
        reveal_strlit("/mcp");
    }
    let chars: Vec<char> = chars_of(path);
    let n: usize = chars.len();
    if n >= 4 && chars[n - 4] == '/' && chars[n - 3] == 'm' && chars[n - 2] == 'c' && chars[n - 1]
        == 'p' {
        proof {
            assert(path@.subrange(n - 4, n as int) =~= "/mcp"@);
        }
        text_of(&chars, 0, n - 4)
    } else {
        proof {
            if "/mcp"@.is_suffix_of(path@) {
                assert("/mcp"@[0] == '/');
                assert("/mcp"@[1] == 'm');
                assert("/mcp"@[2] == 'c');
                assert("/mcp"@[3] == 'p');
                assert(path@.subrange(n - 4, n as int)[0] == path@[n - 4]);
                assert(path@.subrange(n - 4, n as int)[1] == path@[n - 3]);
                assert(path@.subrange(n - 4, n as int)[2] == path@[n - 2]);
                assert(path@.subrange(n - 4, n as int)[3] == path@[n - 1]);
            }
        }
        path.to_owned()
    }
}

/// The path under which the ZIPs are served.
pub fn downloads_path_of(path: &str) -> (r: String)
    ensures
        r@ == downloads_path(path@),
{
    let mut r: String = secret_prefix_of(path);
    r.append("/downloads");
    r
}

/// The host names that a request may carry.
pub enum HostPolicy {
    /// Any host.
    Any,
    /// These hosts and no others.
    Only(Vec<String>),
}

/// The hosts that are always allowed.
pub open spec fn local_hosts() -> Seq<Seq<char>> {
    seq!["localhost"@, "127.0.0.1"@, "::1"@]
}

impl HostPolicy {
    /// The policy is the one for these extra hosts: all hosts are allowed where the check
    /// is off, else the local ones and the extra ones.
    pub open spec fn is_set_for(self, extra: Seq<Seq<char>>, no_host_check: bool) -> bool {
        match self {
            HostPolicy::Any => no_host_check,
            HostPolicy::Only(hosts) => !no_host_check && texts(hosts@) == local_hosts() + extra,
        }
    }
}

/// Which hosts are allowed: all of them where the check is off, else the local ones and
/// the extra ones.
pub fn host_policy(extra: &Vec<String>, no_host_check: bool) -> (r: HostPolicy)
    ensures
        r.is_set_for(texts(extra@), no_host_check),
{
    if no_host_check {
        return HostPolicy::Any;
    }
    let mut hosts: Vec<String> = Vec::new();
    hosts.push("localhost".to_owned());
    hosts.push("127.0.0.1".to_owned());
    hosts.push("::1".to_owned());
    let mut i: usize = 0;
    proof {
        assert(texts(hosts@) == local_hosts() + texts(extra@.take(0)));
    }
    while i < extra.len()
        invariant
            i <= extra@.len(),
            texts(hosts@) == local_hosts() + texts(extra@.take(i as int)),
        decreases extra@.len() - i,
    {
        let host: String = extra[i].clone();
        let ghost before = hosts@;
        hosts.push(host);
        proof {
            assert(texts(hosts@) == texts(before).push(host@));
            assert(texts(extra@.take(i + 1)) == texts(extra@.take(i as int)).push(host@));
            assert(texts(hosts@) == local_hosts() + texts(extra@.take(i + 1)));
        }
        i += 1;
    }
    proof {
        assert(extra@.take(extra@.len() as int) == extra@);
    }
    HostPolicy::Only(hosts)
}

/// How an HTTP server is set up.
pub struct HttpPlan {
    /// Requests belong to sessions.
    pub stateful: bool,
    /// Answers are plain JSON instead of event streams.
    pub json_response: bool,
    pub hosts: HostPolicy,
    /// Where the ZIPs are served.
    pub downloads_path: String,
    /// The token that a request must carry, where one must.
    pub token: Option<String>,
}

/// Sets up an HTTP server: plain JSON answers go with the stateless mode, and
/// authentication is on exactly when a token is configured.
pub fn plan_http(
    path: &str,
    extra_hosts: &Vec<String>,
    no_host_check: bool,
    auth_token: &str,
    stateful: bool,
) -> (r: HttpPlan)
    ensures
        r.stateful == stateful,
        r.json_response == !stateful,
        r.downloads_path@ == downloads_path(path@),
        r.hosts.is_set_for(texts(extra_hosts@), no_host_check),
        match r.token {
            Some(token) => token@ == auth_token@ && auth_token@.len() > 0,
            None => auth_token@.len() == 0,
        },
{
    HttpPlan {
        stateful,
        json_response: !stateful,
        hosts: host_policy(extra_hosts, no_host_check),
        downloads_path: downloads_path_of(path),
        token: if auth_token.is_empty() {
            None
        } else {
            Some(auth_token.to_owned())
        },
    }
}

/// What the server says of its session mode.
pub open spec fn mode_line(stateful: bool) -> Seq<char> {
    if stateful {
        "xdf-mcp: Streamable HTTP mode = stateful (Mcp-Session-Id required; sessions are lost on restart)"@
    } else {
        "xdf-mcp: Streamable HTTP mode = stateless (plain JSON responses)"@
    }
}

/// What the server says of the hosts it answers to. Nothing is said where they are the
/// local ones alone.
pub open spec fn hosts_line(policy: HostPolicy) -> Option<Seq<char>> {
    match policy {
        HostPolicy::Any => Some("xdf-mcp: Host header check DISABLED (all hosts allowed)"@),
        HostPolicy::Only(hosts) => if hosts@.len() > local_hosts().len() {
            Some("xdf-mcp: allowed Host headers = "@ + joined(texts(hosts@), ", "@))
        } else {
            None
        },
    }
}

/// What the server says of authentication.
pub open spec fn auth_line(enabled: bool) -> Seq<char> {
    if enabled {
        "xdf-mcp: Bearer token auth ENABLED"@
    } else {
        "xdf-mcp: NO authentication (set XDF_MCP_AUTH_TOKEN if exposing publicly)"@
    }
}

impl HttpPlan {
    /// What the server says before it listens, line by line.
    pub open spec fn startup_lines(self) -> Seq<Seq<char>> {
        let first = seq![mode_line(self.stateful)];
        let then = match hosts_line(self.hosts) {
            Some(line) => first.push(line),
            None => first,
        };
        then.push(auth_line(self.token is Some))
    }

    /// What the server says before it listens, line by line.
    pub fn startup(&self) -> (r: Vec<String>)
        ensures
            texts(r@) == self.startup_lines(),
    {
        let mut lines: Vec<String> = Vec::new();
        if self.stateful {
            lines.push(
                "xdf-mcp: Streamable HTTP mode = stateful (Mcp-Session-Id required; sessions are lost on restart)".to_owned(),
            );
        } else {
            lines.push(
                "xdf-mcp: Streamable HTTP mode = stateless (plain JSON responses)".to_owned(),
            );
        }
        match &self.hosts {
            HostPolicy::Any => {
                lines.push("xdf-mcp: Host header check DISABLED (all hosts allowed)".to_owned());
            },
            HostPolicy::Only(hosts) => {
                if hosts.len() > 3 {
                    let mut line: String = "xdf-mcp: allowed Host headers = ".to_owned();
                    line.append(join(hosts, ", ").as_str());
                    lines.push(line);
                }
            },
        }
        match &self.token {
            Some(_) => {
                lines.push("xdf-mcp: Bearer token auth ENABLED".to_owned());
            },
            None => {
                lines.push(
                    "xdf-mcp: NO authentication (set XDF_MCP_AUTH_TOKEN if exposing publicly)".to_owned(),
                );
            },
        }
        proof {
            assert(texts(lines@) =~= self.startup_lines());
        }
        lines
    }
}

/// What the server says once it listens, line by line: the address of the
/// endpoint, that of the downloads with the directory behind it, and the published
/// prefix where there is one.
pub open spec fn listening_lines(
    addr: Seq<char>,
    path: Seq<char>,
    extract_dir: Seq<char>,
    prefix: Option<Seq<char>>,
) -> Seq<Seq<char>> {
    let lines = seq![
        "xdf-mcp HTTP listening on http://"@ + addr + path,
        "xdf-mcp downloads served from http://"@ + addr + downloads_path(path)
            + " (extract_dir = "@ + extract_dir + ")"@,
    ];
    match prefix {
        Some(p) => lines.push("xdf-mcp public download URL prefix: "@ + p + "/downloads/"@),
        None => lines,
    }
}

/// What the server says once it listens, line by line.
pub fn listening(addr: &str, path: &str, extract_dir: &str, prefix: Option<&str>) -> (r: Vec<
    String,
>)
    ensures
        texts(r@) == listening_lines(
            addr@,
            path@,
            extract_dir@,
            match prefix {
                Some(p) => Some(p@),
                None => None,
            },
        ),
{
    let mut lines: Vec<String> = Vec::new();
    let mut endpoint: String = "xdf-mcp HTTP listening on http://".to_owned();
    endpoint.append(addr);
    endpoint.append(path);
    lines.push(endpoint);
    let mut downloads: String = "xdf-mcp downloads served from http://".to_owned();
    downloads.append(addr);
    downloads.append(downloads_path_of(path).as_str());
    downloads.append(" (extract_dir = ");
    downloads.append(extract_dir);
    downloads.append(")");
    lines.push(downloads);
    match prefix {
        Some(p) => {
            let mut line: String = "xdf-mcp public download URL prefix: ".to_owned();
            line.append(p);
            line.append("/downloads/");
            lines.push(line);
        },
        None => {},
    }
    proof {
        assert(texts(lines@) =~= listening_lines(
            addr@,
            path@,
            extract_dir@,
            match prefix {
                Some(p) => Some(p@),
                None => None,
            },
        ));
    }
    lines
}

/// The endpoint's own prefix comes back: a path that ends in `/mcp` is its prefix
/// with `/mcp` behind it.
pub proof fn law_secret_prefix_of_endpoint(secret: Seq<char>)
    ensures
        secret_prefix(secret + "/mcp"@) == secret,
        downloads_path(secret + "/mcp"@) == secret + "/downloads"@,
{
    reveal_strlit("/mcp");
    let path = secret + "/mcp"@;
    assert(path.subrange(path.len() - 4, path.len() as int) =~= "/mcp"@);
    assert(path.take(path.len() - 4) =~= secret);
}

/// The address that a client is given is one that the server serves: it is the
/// origin followed by the path of the downloads and the file name, whenever the
/// published prefix is the origin followed by the endpoint's own prefix.
pub proof fn law_download_url_is_served(
    origin: Seq<char>,
    secret: Seq<char>,
    zip_filename: Seq<char>,
)
    requires
        (origin + secret).len() > 0,
        (origin + secret).last() != '/',
    ensures
        download_url(Some(origin + secret), zip_filename) == origin + downloads_path(
            secret + "/mcp"@,
        ) + "/"@ + zip_filename,
{
    law_secret_prefix_of_endpoint(secret);
    reveal_strlit("/downloads/");
    reveal_strlit("/downloads");
    reveal_strlit("/");
    assert("/downloads"@ + "/"@ =~= "/downloads/"@);
    assert(origin + (secret + "/downloads"@) + "/"@ + zip_filename =~= (origin + secret)
        + "/downloads/"@ + zip_filename);
}

/// Extra hosts never lock the local ones out: unless the check is off, every local host
/// is allowed, and so is every extra one, and there are no others.
pub proof fn law_local_hosts_stay_allowed(policy: HostPolicy, extra: Seq<Seq<char>>, host: Seq<char>)
    requires
        policy.is_set_for(extra, false),
    ensures
        policy matches HostPolicy::Only(hosts) && texts(hosts@).contains(host) == (
        local_hosts().contains(host) || extra.contains(host)),
{
    if let HostPolicy::Only(hosts) = policy {
        let all = texts(hosts@);
        let n = local_hosts().len() as int;
        if local_hosts().contains(host) {
            let i = choose|i: int| 0 <= i < n && local_hosts()[i] == host;
            assert(all[i] == host);
        }
        if extra.contains(host) {
            let i = choose|i: int| 0 <= i < extra.len() && extra[i] == host;
            assert(all[n + i] == host);
        }
        if all.contains(host) {
            let i = choose|i: int| 0 <= i < all.len() && all[i] == host;
            if i < n {
                assert(local_hosts()[i] == host);
            } else {
                assert(extra[i - n] == host);
            }
        }
    }
}

/// A path that does not end in `/mcp` is its own prefix.
pub proof fn law_custom_paths_are_kept(path: Seq<char>)
    requires
        !(path.len() >= 4 && path[path.len() - 4] == '/' && path[path.len() - 3] == 'm'
            && path[path.len() - 2] == 'c' && path[path.len() - 1] == 'p'),
    ensures
        secret_prefix(path) == path,
        downloads_path(path) == path + "/downloads"@,
{
    reveal_strlit("/mcp");
    if "/mcp"@.is_suffix_of(path) {
        let n = path.len() as int;
        let end = path.subrange(n - 4, n);
        assert(end =~= "/mcp"@);
        assert(end[0] == '/' && end[1] == 'm' && end[2] == 'c' && end[3] == 'p');
        assert(path[n - 4] == end[0]);
        assert(path[n - 3] == end[1]);
        assert(path[n - 2] == end[2]);
        assert(path[n - 1] == end[3]);
    }
}

/// The hosts that are allowed are all of them where the check is off, and else the three
/// local ones, in order, and the extra ones behind them.
pub proof fn law_allowed_hosts(policy: HostPolicy, extra: Seq<Seq<char>>, no_host_check: bool)
    ensures
        policy.is_set_for(extra, no_host_check) <==> if no_host_check {
            policy is Any
        } else {
            policy matches HostPolicy::Only(hosts) && {
                &&& hosts@.len() == 3 + extra.len()
                &&& hosts@[0]@ == "localhost"@
                &&& hosts@[1]@ == "127.0.0.1"@
                &&& hosts@[2]@ == "::1"@
                &&& forall|i: int| 0 <= i < extra.len() ==> hosts@[3 + i]@ == #[trigger] extra[i]
            }
        },
{
    if let HostPolicy::Only(hosts) = policy {
        let all = texts(hosts@);
        let wanted = local_hosts() + extra;
        if all == wanted {
            assert(all.len() == hosts@.len());
            assert(all[0] == wanted[0] && all[1] == wanted[1] && all[2] == wanted[2]);
            assert forall|i: int| 0 <= i < extra.len() implies hosts@[3 + i]@ == #[trigger] extra[i] by {
                assert(all[3 + i] == wanted[3 + i]);
            }
        }
        if hosts@.len() == 3 + extra.len() && hosts@[0]@ == "localhost"@ && hosts@[1]@
            == "127.0.0.1"@ && hosts@[2]@ == "::1"@ && (forall|i: int|
            0 <= i < extra.len() ==> hosts@[3 + i]@ == #[trigger] extra[i]) {
            assert forall|i: int| 0 <= i < all.len() implies all[i] == wanted[i] by {
                if i >= 3 {
                    assert(hosts@[3 + (i - 3)]@ == extra[i - 3]);
                }
            }
            assert(all =~= wanted);
        }
    }
}

/// What the server says before it listens: its mode first, authentication last, and the
/// hosts between them where the check is off or there are extra ones.
pub proof fn law_startup_lines(plan: HttpPlan)
    ensures
        plan.startup_lines()[0] == if plan.stateful {
            "xdf-mcp: Streamable HTTP mode = stateful (Mcp-Session-Id required; sessions are lost on restart)"@
        } else {
            "xdf-mcp: Streamable HTTP mode = stateless (plain JSON responses)"@
        },
        plan.startup_lines().last() == if plan.token is Some {
            "xdf-mcp: Bearer token auth ENABLED"@
        } else {
            "xdf-mcp: NO authentication (set XDF_MCP_AUTH_TOKEN if exposing publicly)"@
        },
        plan.hosts is Any ==> plan.startup_lines().len() == 3 && plan.startup_lines()[1]
            == "xdf-mcp: Host header check DISABLED (all hosts allowed)"@,
        plan.hosts matches HostPolicy::Only(hosts) ==> (if hosts@.len() > 3 {
            plan.startup_lines().len() == 3 && plan.startup_lines()[1]
                == "xdf-mcp: allowed Host headers = "@ + joined(texts(hosts@), ", "@)
        } else {
            plan.startup_lines().len() == 2
        }),
{
}

/// What the server says once it listens: where the endpoint is, where the downloads are and
/// what directory is behind them, and the published prefix where there is one.
pub proof fn law_listening_lines(
    addr: Seq<char>,
    path: Seq<char>,
    extract_dir: Seq<char>,
    prefix: Seq<char>,
)
    ensures
        listening_lines(addr, path, extract_dir, None).len() == 2,
        listening_lines(addr, path, extract_dir, None)[0] == "xdf-mcp HTTP listening on http://"@
            + addr + path,
        listening_lines(addr, path, extract_dir, None)[1]
            == "xdf-mcp downloads served from http://"@ + addr + downloads_path(path)
            + " (extract_dir = "@ + extract_dir + ")"@,
        listening_lines(addr, path, extract_dir, Some(prefix)) == listening_lines(
            addr,
            path,
            extract_dir,
            None,
        ).push("xdf-mcp public download URL prefix: "@ + prefix + "/downloads/"@),
{
}

} // verus!
