use wasm_server_runner::bundle::WasmBindgenOutput;
use wasm_server_runner::server::{
    build_context, default_index_html, generate_version, handle_request, internal_server_error,
    listen_address, parse_bool_option, render_index_html, route_path, with_security_headers,
    Body, Encoding, HttpResponse, Options, RequestOutcome, Route, ServerContext,
};
use wasm_server_runner::snippets::{ModuleMap, SnippetGroups};

fn test_options() -> Options {
    Options {
        title: String::from("demo"),
        address: String::from("127.0.0.1"),
        directory: String::from("."),
        custom_index_html: None,
        https: false,
        no_module: false,
    }
}

fn test_output() -> WasmBindgenOutput {
    let mut groups = SnippetGroups::new();
    groups.insert(
        String::from("foo"),
        vec![
            String::from("a"),
            String::from("b"),
            String::from("c"),
            String::from("d"),
        ],
    );
    let modules = ModuleMap::new();
    WasmBindgenOutput {
        js: String::from("export default function wasm_bindgen() {}"),
        wasm: vec![0, 97, 115, 109],
        snippets: groups,
        local_modules: modules,
    }
}

fn test_context(encoding: Encoding) -> ServerContext {
    build_context(test_options(), test_output(), &default_index_html(), encoding)
}

fn header<'a>(resp: &'a HttpResponse, name: &str) -> Option<&'a str> {
    resp.headers
        .iter()
        .find(|(n, _)| n == name)
        .map(|(_, v)| v.as_str())
}

fn response(outcome: RequestOutcome) -> HttpResponse {
    match outcome {
        RequestOutcome::Response(resp) => resp,
        RequestOutcome::UpgradeLogBridge => panic!("unexpected upgrade"),
        RequestOutcome::ServeStatic => panic!("unexpected static fallback"),
    }
}

fn text_body(resp: &HttpResponse) -> &str {
    match &resp.body {
        Body::Text(t) => t.as_str(),
        Body::Bytes(_) => panic!("expected a text body"),
    }
}

#[test]
fn bool_option_tokens() {
    for on in ["true", "1", "yes"] {
        assert_eq!(parse_bool_option(on), Some(true));
    }
    for off in ["false", "0", "no"] {
        assert_eq!(parse_bool_option(off), Some(false));
    }
    assert_eq!(parse_bool_option("TRUE"), None);
    assert_eq!(parse_bool_option(""), None);
    assert_eq!(parse_bool_option("maybe"), None);
}

#[test]
fn version_token_is_twelve_alphanumerics() {
    let v = generate_version();
    assert_eq!(v.chars().count(), 12);
    assert!(v.chars().all(|c| c.is_ascii_alphanumeric()));
}

#[test]
fn version_token_changes_across_generations() {
    // the token is random; two draws agreeing is all but impossible
    assert_ne!(generate_version(), generate_version());
}

#[test]
fn listen_address_appends_free_port() {
    assert_eq!(listen_address("127.0.0.1", 1334), "127.0.0.1:1334");
}

#[test]
fn listen_address_keeps_explicit_port() {
    assert_eq!(listen_address("0.0.0.0:4000", 1334), "0.0.0.0:4000");
}

#[test]
fn render_substitutes_title_everywhere() {
    let out = render_index_html("<h1>{{ TITLE }}</h1><p>{{ TITLE }}</p>", "demo", false);
    assert_eq!(out, "<h1>demo</h1><p>demo</p>");
}

#[test]
fn render_module_mode() {
    let source = "{{ NO_MODULE }}<script type=\"module\">\n// {{ MODULE }}\n</script>";
    let out = render_index_html(source, "demo", false);
    assert_eq!(
        out,
        "<script type=\"module\">\nimport wasm_bindgen from './api/wasm.js';\n</script>"
    );
}

#[test]
fn render_no_module_mode() {
    let source = "{{ NO_MODULE }}<script type=\"module\">\n// {{ MODULE }}\n</script>";
    let out = render_index_html(source, "demo", true);
    assert_eq!(
        out,
        "<script src=\"./api/wasm.js\"></script><script type=\"module\">\n\n</script>"
    );
}

#[test]
fn default_template_carries_all_tokens() {
    let template = default_index_html();
    assert!(template.contains("{{ TITLE }}"));
    assert!(template.contains("{{ NO_MODULE }}"));
    assert!(template.contains("// {{ MODULE }}"));
}

#[test]
fn route_table() {
    assert_eq!(route_path("/"), Route::Index);
    assert_eq!(route_path("/api/wasm.js"), Route::Script);
    assert_eq!(route_path("/api/wasm.wasm"), Route::Binary);
    assert_eq!(route_path("/api/version"), Route::Version);
    assert_eq!(route_path("/ws"), Route::LogBridge);
    assert_eq!(route_path("/api/snippets/foo/inline0.js"), Route::Snippet);
    assert_eq!(route_path("/style.css"), Route::Static);
    assert_eq!(route_path("/api/other"), Route::Static);
}

#[test]
fn index_request_serves_rendered_page() {
    let ctx = test_context(Encoding::Identity);
    let resp = response(handle_request(&ctx, "/"));
    assert_eq!(resp.status, 200);
    assert_eq!(header(&resp, "content-type"), Some("text/html; charset=utf-8"));
    assert_eq!(text_body(&resp), ctx.html.as_str());
    assert!(!text_body(&resp).contains("{{ TITLE }}"));
    assert!(text_body(&resp).contains("<title>demo</title>"));
}

#[test]
fn script_request_serves_javascript() {
    let ctx = test_context(Encoding::Identity);
    let resp = response(handle_request(&ctx, "/api/wasm.js"));
    assert_eq!(resp.status, 200);
    assert_eq!(header(&resp, "content-type"), Some("application/javascript"));
    assert_eq!(text_body(&resp), ctx.output.js.as_str());
}

#[test]
fn binary_request_is_wasm_content_type() {
    let ctx = test_context(Encoding::Identity);
    let resp = response(handle_request(&ctx, "/api/wasm.wasm"));
    assert_eq!(resp.status, 200);
    assert_eq!(header(&resp, "content-type"), Some("application/wasm"));
    assert_eq!(header(&resp, "content-encoding"), None);
    match &resp.body {
        Body::Bytes(b) => assert_eq!(b, &vec![0, 97, 115, 109]),
        Body::Text(_) => panic!("expected a byte body"),
    }
}

#[test]
fn binary_request_encoding_header_matches_codec() {
    let gz = response(handle_request(&test_context(Encoding::Gzip), "/api/wasm.wasm"));
    assert_eq!(header(&gz, "content-type"), Some("application/wasm"));
    assert_eq!(header(&gz, "content-encoding"), Some("gzip"));

    let br = response(handle_request(&test_context(Encoding::Brotli), "/api/wasm.wasm"));
    assert_eq!(header(&br, "content-encoding"), Some("br"));
}

#[test]
fn version_request_is_idempotent_within_a_process() {
    let ctx = test_context(Encoding::Identity);
    let first = response(handle_request(&ctx, "/api/version"));
    let second = response(handle_request(&ctx, "/api/version"));
    assert_eq!(first.status, 200);
    assert_eq!(
        header(&first, "content-type"),
        Some("text/plain; charset=utf-8")
    );
    assert_eq!(text_body(&first), ctx.version.as_str());
    assert_eq!(text_body(&first), text_body(&second));
}

#[test]
fn ws_request_upgrades_to_log_bridge() {
    let ctx = test_context(Encoding::Identity);
    assert!(matches!(
        handle_request(&ctx, "/ws"),
        RequestOutcome::UpgradeLogBridge
    ));
}

#[test]
fn unmatched_request_falls_back_to_static() {
    let ctx = test_context(Encoding::Identity);
    assert!(matches!(
        handle_request(&ctx, "/assets/app.css"),
        RequestOutcome::ServeStatic
    ));
}

#[test]
fn snippet_request_serves_fragment() {
    let ctx = test_context(Encoding::Identity);
    let resp = response(handle_request(&ctx, "/api/snippets/foo/inline3.js"));
    assert_eq!(resp.status, 200);
    assert_eq!(header(&resp, "content-type"), Some("application/javascript"));
    assert_eq!(text_body(&resp), "d");
}

#[test]
fn snippet_request_failure_is_not_found() {
    let ctx = test_context(Encoding::Identity);
    let resp = response(handle_request(&ctx, "/api/snippets/bar/inline0.js"));
    assert_eq!(resp.status, 404);
    assert_eq!(text_body(&resp), "invalid snippet name");
}

#[test]
fn responses_carry_security_headers() {
    let ctx = test_context(Encoding::Identity);
    for path in ["/", "/api/wasm.js", "/api/wasm.wasm", "/api/version"] {
        let resp = response(handle_request(&ctx, path));
        assert_eq!(
            header(&resp, "cross-origin-opener-policy"),
            Some("same-origin")
        );
        assert_eq!(
            header(&resp, "cross-origin-embedder-policy"),
            Some("require-corp")
        );
    }
}

#[test]
fn security_headers_respect_existing_values() {
    let resp = HttpResponse {
        status: 200,
        headers: vec![(
            String::from("cross-origin-opener-policy"),
            String::from("unsafe-none"),
        )],
        body: Body::Text(String::from("x")),
    };
    let out = with_security_headers(resp);
    let coop: Vec<&str> = out
        .headers
        .iter()
        .filter(|(n, _)| n == "cross-origin-opener-policy")
        .map(|(_, v)| v.as_str())
        .collect();
    assert_eq!(coop, vec!["unsafe-none"]);
    assert_eq!(
        out.headers
            .iter()
            .find(|(n, _)| n == "cross-origin-embedder-policy")
            .map(|(_, v)| v.as_str()),
        Some("require-corp")
    );
}

#[test]
fn internal_server_error_describes_the_failure() {
    let resp = internal_server_error("disk on fire");
    assert_eq!(resp.status, 500);
    assert_eq!(text_body(&resp), "Unhandled internal error: disk on fire");
}
