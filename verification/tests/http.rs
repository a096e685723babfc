use xdf_mcp::bundle::download_url_of;
use xdf_mcp::http::{
    downloads_path_of, host_policy, listening, plan_http, secret_prefix_of, HostPolicy,
};

#[test]
fn the_endpoint_gives_the_prefix() {
    for (path, prefix, downloads) in [
        ("/mcp", "", "/downloads"),
        ("/abc/mcp", "/abc", "/abc/downloads"),
        ("/custom", "/custom", "/custom/downloads"),
        ("/mcp/", "/mcp/", "/mcp//downloads"),
        ("/mcp/mcp", "/mcp", "/mcp/downloads"),
        ("/amcp", "/amcp", "/amcp/downloads"),
        ("", "", "/downloads"),
        ("mcp", "mcp", "mcp/downloads"),
        ("/秘密/mcp", "/秘密", "/秘密/downloads"),
    ] {
        assert_eq!(secret_prefix_of(path), prefix);
        assert_eq!(downloads_path_of(path), downloads);
    }
}

#[test]
fn a_published_address_is_served() {
    let url = download_url_of(Some("https://host/8a3f"), "x.zip");
    assert_eq!(url, format!("https://host{}/x.zip", downloads_path_of("/8a3f/mcp")));
}

#[test]
fn hosts_are_chosen() {
    let none: Vec<String> = vec![];
    let extra = vec!["a.ts.net".to_string(), "b".to_string()];
    assert!(matches!(host_policy(&none, true), HostPolicy::Any));
    assert!(matches!(host_policy(&extra, true), HostPolicy::Any));
    match host_policy(&none, false) {
        HostPolicy::Only(hosts) => assert_eq!(hosts, vec!["localhost", "127.0.0.1", "::1"]),
        _ => panic!("other policy"),
    }
    match host_policy(&extra, false) {
        HostPolicy::Only(hosts) => {
            assert_eq!(hosts, vec!["localhost", "127.0.0.1", "::1", "a.ts.net", "b"])
        }
        _ => panic!("other policy"),
    }
}

#[test]
fn a_plain_server_is_stateless_and_open() {
    let plan = plan_http("/mcp", &vec![], false, "", false);
    assert!(!plan.stateful);
    assert!(plan.json_response);
    assert!(plan.token.is_none());
    assert_eq!(plan.downloads_path, "/downloads");
    assert_eq!(
        plan.startup(),
        vec![
            "xdf-mcp: Streamable HTTP mode = stateless (plain JSON responses)",
            "xdf-mcp: NO authentication (set XDF_MCP_AUTH_TOKEN if exposing publicly)",
        ]
    );
}

#[test]
fn a_full_server_tells_everything() {
    let extra = vec!["m.t.ts.net".to_string()];
    let plan = plan_http("/s/mcp", &extra, false, "tok", true);
    assert!(plan.stateful);
    assert!(!plan.json_response);
    assert_eq!(plan.token.as_deref(), Some("tok"));
    assert_eq!(
        plan.startup(),
        vec![
            "xdf-mcp: Streamable HTTP mode = stateful (Mcp-Session-Id required; sessions are lost on restart)",
            "xdf-mcp: allowed Host headers = localhost, 127.0.0.1, ::1, m.t.ts.net",
            "xdf-mcp: Bearer token auth ENABLED",
        ]
    );
    let open = plan_http("/s/mcp", &extra, true, "tok", true);
    assert_eq!(open.startup()[1], "xdf-mcp: Host header check DISABLED (all hosts allowed)");
}

#[test]
fn a_listening_server_tells_its_addresses() {
    assert_eq!(
        listening("0.0.0.0:8765", "/s/mcp", "\"/tmp/xdf-extracts\"", None),
        vec![
            "xdf-mcp HTTP listening on http://0.0.0.0:8765/s/mcp",
            "xdf-mcp downloads served from http://0.0.0.0:8765/s/downloads (extract_dir = \"/tmp/xdf-extracts\")",
        ]
    );
    let lines = listening("a", "/mcp", "\"d\"", Some("https://h"));
    assert_eq!(lines.len(), 3);
    assert_eq!(lines[2], "xdf-mcp public download URL prefix: https://h/downloads/");
}
