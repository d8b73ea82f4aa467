//! The HTTP serving layer: per-run options, the logical route table with
//! its content negotiation, the rendered index page, the process-lifetime
//! version token, the listen address, and the two security response
//! headers applied to every response.

use vstd::prelude::*;
use vstd::string::StrSliceExecFns;
use vstd::string::StringExecFns;

use crate::bundle::WasmBindgenOutput;
use crate::snippets::{get_snippet_source, spec_resolve, SnippetError};
use crate::strutil::{
    dec_rep, find_char, lemma_occurs_at_append, occurs_at, replace_all, spec_replace,
    starts_with_at, substring_copy, u64_to_string,
};

verus! {

/// Immutable per-run configuration, created once at startup.
pub struct Options {
    pub title: String,
    pub address: String,
    pub directory: String,
    pub custom_index_html: Option<String>,
    pub https: bool,
    pub no_module: bool,
}

/// The setting a boolean configuration token names: `true`, `1` and `yes`
/// switch the option on; `false`, `0` and `no` switch it off; any other
/// token is a configuration error to report before startup.
pub fn parse_bool_option(value: &str) -> (r: Option<bool>)
    ensures
        r == Some(true) <==> (value@ == "true"@ || value@ == "1"@ || value@ == "yes"@),
        r == Some(false) <==> (value@ == "false"@ || value@ == "0"@ || value@ == "no"@),
{
    proof {
        reveal_strlit("true");
        reveal_strlit("1");
        reveal_strlit("yes");
        reveal_strlit("false");
        reveal_strlit("0");
        reveal_strlit("no");
        assert("true"@.len() == 4 && "1"@.len() == 1 && "yes"@.len() == 3);
        assert("false"@.len() == 5 && "0"@.len() == 1 && "no"@.len() == 2);
        assert("1"@[0] == '1' && "0"@[0] == '0');
        assert("true"@ != "false"@ && "true"@ != "0"@ && "true"@ != "no"@);
        assert("1"@ != "false"@ && "1"@ != "0"@ && "1"@ != "no"@);
        assert("yes"@ != "false"@ && "yes"@ != "0"@ && "yes"@ != "no"@);
    }
    if crate::strutil::str_eq(value, "true") || crate::strutil::str_eq(value, "1")
        || crate::strutil::str_eq(value, "yes") {
        Some(true)
    } else if crate::strutil::str_eq(value, "false") || crate::strutil::str_eq(value, "0")
        || crate::strutil::str_eq(value, "no") {
        Some(false)
    } else {
        None
    }
}

/// How the stored binary payload bytes are encoded. When a pre-compressed
/// variant is served, the response must carry the matching
/// `Content-Encoding` header.
#[derive(Clone, Copy, PartialEq, Eq, Structural, Debug)]
pub enum Encoding {
    /// Plain bytes; no `Content-Encoding` header is set.
    Identity,
    /// Compressed with gzip.
    Gzip,
    /// Compressed with brotli.
    Brotli,
}

/// A response body: page or script text, or raw payload bytes.
pub enum Body {
    Text(String),
    Bytes(Vec<u8>),
}

/// A logical HTTP response: status, response headers in order, body.
/// Header names are kept lowercase; lookup is by first match.
pub struct HttpResponse {
    pub status: u16,
    pub headers: Vec<(String, String)>,
    pub body: Body,
}

/// First-match lookup of a header value by name.
pub open spec fn header_lookup(headers: Seq<(String, String)>, name: Seq<char>) -> Option<
    Seq<char>,
>
    decreases headers.len(),
{
    if headers.len() == 0 {
        None
    } else if headers[0].0@ == name {
        Some(headers[0].1@)
    } else {
        header_lookup(headers.skip(1), name)
    }
}

proof fn lemma_header_lookup_push_one(
    headers: Seq<(String, String)>,
    pair: (String, String),
    q: Seq<char>,
)
    ensures
        header_lookup(headers.push(pair), q) == (if header_lookup(headers, q) is Some {
            header_lookup(headers, q)
        } else if q == pair.0@ {
            Some(pair.1@)
        } else {
            None::<Seq<char>>
        }),
    decreases headers.len(),
{
    let p = headers.push(pair);
    if headers.len() == 0 {
        assert(p[0] == pair);
        assert(p.skip(1) =~= Seq::<(String, String)>::empty());
        assert(header_lookup(p.skip(1), q) is None);
    } else {
        lemma_header_lookup_push_one(headers.skip(1), pair, q);
        assert(p.skip(1) =~= headers.skip(1).push(pair));
        assert(header_lookup(p.skip(1), q) == header_lookup(headers.skip(1).push(pair), q));
        assert(p[0] == headers[0]);
    }
}

proof fn lemma_header_lookup_push(headers: Seq<(String, String)>, pair: (String, String))
    ensures
        forall|q: Seq<char>|
            #[trigger] header_lookup(headers.push(pair), q) == (
            if header_lookup(headers, q) is Some {
                header_lookup(headers, q)
            } else if q == pair.0@ {
                Some(pair.1@)
            } else {
                None::<Seq<char>>
            }),
{
    assert forall|q: Seq<char>|
        #[trigger] header_lookup(headers.push(pair), q) == (
        if header_lookup(headers, q) is Some {
            header_lookup(headers, q)
        } else if q == pair.0@ {
            Some(pair.1@)
        } else {
            None::<Seq<char>>
        }) by {
        lemma_header_lookup_push_one(headers, pair, q);
    }
}

proof fn lemma_header_lookup_at(headers: Seq<(String, String)>, name: Seq<char>, j: int)
    requires
        0 <= j < headers.len(),
        headers[j].0@ == name,
        forall|k: int| 0 <= k < j ==> headers[k].0@ != name,
    ensures
        header_lookup(headers, name) == Some(headers[j].1@),
    decreases j,
{
    if j > 0 {
        assert(forall|k: int| 0 <= k < j - 1 ==> headers.skip(1)[k] == headers[k + 1]);
        lemma_header_lookup_at(headers.skip(1), name, j - 1);
    }
}

proof fn lemma_header_lookup_none(headers: Seq<(String, String)>, name: Seq<char>)
    requires
        forall|k: int| 0 <= k < headers.len() ==> headers[k].0@ != name,
    ensures
        header_lookup(headers, name) is None,
    decreases headers.len(),
{
    if headers.len() > 0 {
        assert(forall|k: int| 0 <= k < headers.len() - 1 ==> headers.skip(1)[k] == headers[k + 1]);
        lemma_header_lookup_none(headers.skip(1), name);
    }
}

/// Whether a header of the given name is present.
fn has_header(headers: &Vec<(String, String)>, name: &str) -> (r: bool)
    ensures
        r == (header_lookup(headers@, name@) is Some),
{
    let n = headers.len();
    let mut j: usize = 0;
    while j < n
        invariant
            n == headers@.len(),
            j <= n,
            forall|k: int| 0 <= k < j ==> headers@[k].0@ != name@,
        decreases n - j,
    {
        if crate::strutil::str_eq(headers[j].0.as_str(), name) {
            proof {
                lemma_header_lookup_at(headers@, name@, j as int);
            }
            return true;
        }
        j += 1;
    }
    proof {
        lemma_header_lookup_none(headers@, name@);
    }
    false
}

/// A fresh header list holding one pair.
fn singleton_headers(name: &str, value: &str) -> (r: Vec<(String, String)>)
    ensures
        header_lookup(r@, name@) == Some(value@),
        forall|n: Seq<char>| n != name@ ==> #[trigger] header_lookup(r@, n) is None,
{
    let mut headers: Vec<(String, String)> = Vec::new();
    let pair = (String::from_str(name), String::from_str(value));
    let ghost gpair = pair;
    let ghost before = headers@;
    headers.push(pair);
    proof {
        lemma_header_lookup_push(before, gpair);
        assert(forall|n: Seq<char>| header_lookup(before, n) is None);
    }
    headers
}

/// Append one header pair, keeping any same-named header that is already
/// present authoritative for lookup.
fn push_header(headers: &mut Vec<(String, String)>, name: &str, value: &str)
    ensures
        header_lookup(final(headers)@, name@) == (
        if header_lookup(old(headers)@, name@) is Some {
            header_lookup(old(headers)@, name@)
        } else {
            Some(value@)
        }),
        forall|n: Seq<char>|
            n != name@ ==> #[trigger] header_lookup(final(headers)@, n) == header_lookup(
                old(headers)@,
                n,
            ),
{
    let pair = (String::from_str(name), String::from_str(value));
    let ghost gpair = pair;
    let ghost before = headers@;
    headers.push(pair);
    proof {
        lemma_header_lookup_push(before, gpair);
    }
}

/// The two fixed security response headers, set only if not already
/// present: they opt the served page in to the browser APIs that need
/// cross-origin isolation.
pub fn with_security_headers(resp: HttpResponse) -> (r: HttpResponse)
    ensures
        r.status == resp.status,
        r.body == resp.body,
        header_lookup(r.headers@, "cross-origin-opener-policy"@) == (
        if header_lookup(resp.headers@, "cross-origin-opener-policy"@) is Some {
            header_lookup(resp.headers@, "cross-origin-opener-policy"@)
        } else {
            Some("same-origin"@)
        }),
        header_lookup(r.headers@, "cross-origin-embedder-policy"@) == (
        if header_lookup(resp.headers@, "cross-origin-embedder-policy"@) is Some {
            header_lookup(resp.headers@, "cross-origin-embedder-policy"@)
        } else {
            Some("require-corp"@)
        }),
        forall|n: Seq<char>|
            n != "cross-origin-opener-policy"@ && n != "cross-origin-embedder-policy"@
                ==> #[trigger] header_lookup(r.headers@, n) == header_lookup(resp.headers@, n),
{
    proof {
        reveal_strlit("cross-origin-opener-policy");
        reveal_strlit("cross-origin-embedder-policy");
        assert("cross-origin-opener-policy"@.len() != "cross-origin-embedder-policy"@.len());
    }
    let mut r = resp;
    if !has_header(&r.headers, "cross-origin-opener-policy") {
        push_header(&mut r.headers, "cross-origin-opener-policy", "same-origin");
    }
    if !has_header(&r.headers, "cross-origin-embedder-policy") {
        push_header(&mut r.headers, "cross-origin-embedder-policy", "require-corp");
    }
    r
}

/// `c` is an ASCII letter or digit.
pub open spec fn is_alnum(c: char) -> bool {
    ('a' <= c && c <= 'z') || ('A' <= c && c <= 'Z') || ('0' <= c && c <= '9')
}

/// Relies on `fastrand::alphanumeric`: a uniformly random `char` from the
/// set a-z, A-Z, 0-9, here converted to a one-character string. The draw
/// is random, so only membership in that set is promised.
#[verifier::external_body]
fn random_alphanumeric() -> (r: String)
    ensures
        r@.len() == 1,
        is_alnum(r@[0]),
{
    fastrand::alphanumeric().to_string()
}

/// The process-lifetime version token: twelve random alphanumeric
/// characters, generated once per server start as a cache-busting restart
/// signal. It bears no relation to the artifact's content.
pub fn generate_version() -> (r: String)
    ensures
        r@.len() == 12,
        forall|i: int| 0 <= i < r@.len() ==> is_alnum(#[trigger] r@[i]),
{
    let mut out = String::new();
    let mut i: usize = 0;
    while i < 12
        invariant
            i <= 12,
            out@.len() == i,
            forall|j: int| 0 <= j < out@.len() ==> is_alnum(#[trigger] out@[j]),
        decreases 12 - i,
    {
        let c = random_alphanumeric();
        out.append(c.as_str());
        i += 1;
    }
    out
}

/// The address to bind: the configured address verbatim when it already
/// carries a port delimiter, else the configured address with the chosen
/// port appended.
pub open spec fn spec_listen_address(addr: Seq<char>, port: nat) -> Seq<char> {
    if exists|i: int| 0 <= i < addr.len() && addr[i] == ':' {
        addr
    } else {
        addr + ":"@ + dec_rep(port)
    }
}

/// Derive the listen address from the configured address and the chosen
/// port.
pub fn listen_address(address: &str, port: u16) -> (r: String)
    ensures
        r@ == spec_listen_address(address@, port as nat),
{
    match find_char(address, ':') {
        Some(i) => {
            proof {
                assert(0 <= i < address@.len() && address@[i as int] == ':');
            }
            String::from_str(address)
        },
        None => {
            let mut s = String::from_str(address);
            s.append(":");
            let p = u64_to_string(port as u64);
            s.append(p.as_str());
            proof {
                assert(!(exists|i: int| 0 <= i < address@.len() && address@[i] == ':'));
                assert(s@ =~= address@ + ":"@ + dec_rep(port as nat));
            }
            s
        },
    }
}

/// The rendered index page: the title token substituted everywhere, then
/// the two mutually exclusive script-loading token pairs swapped
/// consistently — in no-module mode the script tag is injected and the
/// module import comment is cleared, otherwise the module import is
/// injected and the script tag token is cleared.
pub open spec fn spec_render_index(source: Seq<char>, title: Seq<char>, no_module: bool) -> Seq<
    char,
> {
    let with_title = spec_replace(source, "{{ TITLE }}"@, title);
    if no_module {
        spec_replace(
            spec_replace(
                with_title,
                "{{ NO_MODULE }}"@,
                "<script src=\"./api/wasm.js\"></script>"@,
            ),
            "// {{ MODULE }}"@,
            ""@,
        )
    } else {
        spec_replace(
            spec_replace(with_title, "// {{ MODULE }}"@, "import wasm_bindgen from './api/wasm.js';"@),
            "{{ NO_MODULE }}"@,
            ""@,
        )
    }
}

/// Render the index page source for this run.
pub fn render_index_html(source: &str, title: &str, no_module: bool) -> (r: String)
    ensures
        r@ == spec_render_index(source@, title@, no_module),
{
    proof {
        reveal_strlit("{{ TITLE }}");
        reveal_strlit("{{ NO_MODULE }}");
        reveal_strlit("// {{ MODULE }}");
    }
    let with_title = replace_all(source, "{{ TITLE }}", title);
    if no_module {
        let with_script = replace_all(
            with_title.as_str(),
            "{{ NO_MODULE }}",
            "<script src=\"./api/wasm.js\"></script>",
        );
        replace_all(with_script.as_str(), "// {{ MODULE }}", "")
    } else {
        let with_import = replace_all(
            with_title.as_str(),
            "// {{ MODULE }}",
            "import wasm_bindgen from './api/wasm.js';",
        );
        replace_all(with_import.as_str(), "{{ NO_MODULE }}", "")
    }
}

/// The bundled default index page, used when the serve-root directory
/// offers no custom one. It carries the three template tokens that
/// `render_index_html` substitutes, forwards console output over the log
/// bridge, and polls the version endpoint to detect a server restart.
pub fn default_index_html() -> (r: String)
    ensures
        (exists|i: int| occurs_at(r@, "{{ TITLE }}"@, i)),
        (exists|i: int| occurs_at(r@, "{{ NO_MODULE }}"@, i)),
        (exists|i: int| occurs_at(r@, "// {{ MODULE }}"@, i)),
{
    let mut s = String::from_str(
        "<!DOCTYPE html>\n<html lang=\"en\">\n<head>\n  <meta charset=\"UTF-8\">\n  <title>",
    );
    let ghost title_at = s@.len() as int;
    s.append("{{ TITLE }}");
    proof {
        assert(s@.subrange(title_at, title_at + "{{ TITLE }}"@.len()) =~= "{{ TITLE }}"@);
    }
    let ghost g1 = s@;
    s.append("</title>\n</head>\n<body>\n");
    proof {
        lemma_occurs_at_append(g1, "</title>\n</head>\n<body>\n"@, "{{ TITLE }}"@, title_at);
    }
    let ghost no_module_at = s@.len() as int;
    let ghost g2 = s@;
    s.append("{{ NO_MODULE }}");
    proof {
        lemma_occurs_at_append(g2, "{{ NO_MODULE }}"@, "{{ TITLE }}"@, title_at);
        assert(s@.subrange(no_module_at, no_module_at + "{{ NO_MODULE }}"@.len())
            =~= "{{ NO_MODULE }}"@);
    }
    let ghost g3 = s@;
    s.append("\n<script type=\"module\">\n  ");
    proof {
        lemma_occurs_at_append(g3, "\n<script type=\"module\">\n  "@, "{{ TITLE }}"@, title_at);
        lemma_occurs_at_append(
            g3,
            "\n<script type=\"module\">\n  "@,
            "{{ NO_MODULE }}"@,
            no_module_at,
        );
    }
    let ghost module_at = s@.len() as int;
    let ghost g4 = s@;
    s.append("// {{ MODULE }}");
    proof {
        lemma_occurs_at_append(g4, "// {{ MODULE }}"@, "{{ TITLE }}"@, title_at);
        lemma_occurs_at_append(g4, "// {{ MODULE }}"@, "{{ NO_MODULE }}"@, no_module_at);
        assert(s@.subrange(module_at, module_at + "// {{ MODULE }}"@.len())
            =~= "// {{ MODULE }}"@);
    }
    let ghost g5 = s@;
    s.append(
        "\n\n  const ws = new WebSocket((location.protocol === 'https:' ? 'wss://' : 'ws://') + location.host + '/ws');\n  const send = (level, text) => { if (ws.readyState === 1) { ws.send(level + ',' + text); } };\n  for (const level of ['log', 'trace', 'debug', 'info', 'warn', 'error']) {\n    const original = console[level];\n    console[level] = (...args) => { original.apply(console, args); send(level, args.join(' ')); };\n  }\n  window.addEventListener('error', (event) => { send('error', event.message); });\n\n  let version = null;\n  setInterval(async () => {\n    try {\n      const current = await (await fetch('/api/version')).text();\n      if (version === null) { version = current; } else if (version !== current) { location.reload(); }\n    } catch (_) {}\n  }, 1000);\n\n  wasm_bindgen('./api/wasm.wasm');\n</script>\n</body>\n</html>\n",
    );
    proof {
        let tail = "\n\n  const ws = new WebSocket((location.protocol === 'https:' ? 'wss://' : 'ws://') + location.host + '/ws');\n  const send = (level, text) => { if (ws.readyState === 1) { ws.send(level + ',' + text); } };\n  for (const level of ['log', 'trace', 'debug', 'info', 'warn', 'error']) {\n    const original = console[level];\n    console[level] = (...args) => { original.apply(console, args); send(level, args.join(' ')); };\n  }\n  window.addEventListener('error', (event) => { send('error', event.message); });\n\n  let version = null;\n  setInterval(async () => {\n    try {\n      const current = await (await fetch('/api/version')).text();\n      if (version === null) { version = current; } else if (version !== current) { location.reload(); }\n    } catch (_) {}\n  }, 1000);\n\n  wasm_bindgen('./api/wasm.wasm');\n</script>\n</body>\n</html>\n"@;
        lemma_occurs_at_append(g5, tail, "{{ TITLE }}"@, title_at);
        lemma_occurs_at_append(g5, tail, "{{ NO_MODULE }}"@, no_module_at);
        lemma_occurs_at_append(g5, tail, "// {{ MODULE }}"@, module_at);
    }
    s
}

/// Everything a request handler may read: the per-run options, the
/// generated artifact, the rendered index page, the version token, and
/// the encoding under which the binary payload bytes are stored. Built
/// once before the listener binds; read-only thereafter.
pub struct ServerContext {
    pub options: Options,
    pub output: WasmBindgenOutput,
    pub html: String,
    pub version: String,
    pub wasm_encoding: Encoding,
}

/// Assemble the read-only serving context: render the index page from the
/// given source and generate the version token.
pub fn build_context(
    options: Options,
    output: WasmBindgenOutput,
    html_source: &str,
    wasm_encoding: Encoding,
) -> (r: ServerContext)
    ensures
        r.options == options,
        r.output == output,
        r.wasm_encoding == wasm_encoding,
        r.html@ == spec_render_index(html_source@, options.title@, options.no_module),
        r.version@.len() == 12,
        forall|i: int| 0 <= i < r.version@.len() ==> is_alnum(#[trigger] r.version@[i]),
{
    let html = render_index_html(html_source, options.title.as_str(), options.no_module);
    let version = generate_version();
    ServerContext { options, output, html, version, wasm_encoding }
}

/// The logical route a request path selects.
#[derive(Clone, Copy, PartialEq, Eq, Structural, Debug)]
pub enum Route {
    /// `/`: the rendered index page.
    Index,
    /// `/api/wasm.js`: the generated script.
    Script,
    /// `/api/wasm.wasm`: the binary payload.
    Binary,
    /// `/api/version`: the version token.
    Version,
    /// `/ws`: upgrade to the log bridge channel.
    LogBridge,
    /// `/api/snippets/*`: the snippet resolver.
    Snippet,
    /// Anything else: a static file under the serve-root directory.
    Static,
}

/// The prefix under which snippets are served.
pub open spec fn snippets_prefix() -> Seq<char> {
    "/api/snippets/"@
}

/// The route table: exact paths first, then the snippets prefix, then the
/// static fallback.
pub open spec fn spec_route(path: Seq<char>) -> Route {
    if path == "/"@ {
        Route::Index
    } else if path == "/api/wasm.js"@ {
        Route::Script
    } else if path == "/api/wasm.wasm"@ {
        Route::Binary
    } else if path == "/api/version"@ {
        Route::Version
    } else if path == "/ws"@ {
        Route::LogBridge
    } else if occurs_at(path, snippets_prefix(), 0) {
        Route::Snippet
    } else {
        Route::Static
    }
}

/// Select the route for a request path.
pub fn route_path(path: &str) -> (r: Route)
    ensures
        r == spec_route(path@),
{
    if crate::strutil::str_eq(path, "/") {
        Route::Index
    } else if crate::strutil::str_eq(path, "/api/wasm.js") {
        Route::Script
    } else if crate::strutil::str_eq(path, "/api/wasm.wasm") {
        Route::Binary
    } else if crate::strutil::str_eq(path, "/api/version") {
        Route::Version
    } else if crate::strutil::str_eq(path, "/ws") {
        Route::LogBridge
    } else if starts_with_at(path, "/api/snippets/", 0) {
        Route::Snippet
    } else {
        Route::Static
    }
}

/// `resp` is a success response with the given content type and text body.
pub open spec fn is_text_response(
    resp: HttpResponse,
    status: int,
    content_type: Seq<char>,
    body: Seq<char>,
) -> bool {
    &&& resp.status == status
    &&& header_lookup(resp.headers@, "content-type"@) == Some(content_type)
    &&& resp.body matches Body::Text(t) && t@ == body
}

/// `resp` is a success response with the given content type and byte body.
pub open spec fn is_bytes_response(
    resp: HttpResponse,
    status: int,
    content_type: Seq<char>,
    body: Seq<u8>,
) -> bool {
    &&& resp.status == status
    &&& header_lookup(resp.headers@, "content-type"@) == Some(content_type)
    &&& resp.body matches Body::Bytes(b) && b@ == body
}

/// The `Content-Encoding` value owed for stored payload bytes: none for
/// plain bytes, else the token of the codec that produced them.
pub open spec fn spec_encoding_header(e: Encoding) -> Option<Seq<char>> {
    match e {
        Encoding::Identity => None,
        Encoding::Gzip => Some("gzip"@),
        Encoding::Brotli => Some("br"@),
    }
}

/// The rendered index page response.
pub fn index_response(ctx: &ServerContext) -> (r: HttpResponse)
    ensures
        is_text_response(r, 200, "text/html; charset=utf-8"@, ctx.html@),
{
    let headers = singleton_headers("content-type", "text/html; charset=utf-8");
    HttpResponse { status: 200, headers, body: Body::Text(ctx.html.clone()) }
}

/// The generated script, served as JavaScript.
pub fn script_response(ctx: &ServerContext) -> (r: HttpResponse)
    ensures
        is_text_response(r, 200, "application/javascript"@, ctx.output.js@),
{
    let headers = singleton_headers("content-type", "application/javascript");
    HttpResponse { status: 200, headers, body: Body::Text(ctx.output.js.clone()) }
}

/// The binary payload, served as WebAssembly; the `Content-Encoding`
/// header matches the encoding under which the stored bytes were
/// produced, and is absent for plain bytes.
pub fn wasm_response(ctx: &ServerContext) -> (r: HttpResponse)
    ensures
        is_bytes_response(r, 200, "application/wasm"@, ctx.output.wasm@),
        header_lookup(r.headers@, "content-encoding"@) == spec_encoding_header(ctx.wasm_encoding),
{
    proof {
        reveal_strlit("content-type");
        reveal_strlit("content-encoding");
        assert("content-type"@.len() != "content-encoding"@.len());
    }
    let mut headers = singleton_headers("content-type", "application/wasm");
    match ctx.wasm_encoding {
        Encoding::Identity => {},
        Encoding::Gzip => {
            push_header(&mut headers, "content-encoding", "gzip");
        },
        Encoding::Brotli => {
            push_header(&mut headers, "content-encoding", "br");
        },
    }
    HttpResponse { status: 200, headers, body: Body::Bytes(ctx.output.wasm.clone()) }
}

/// The version token, served as plain text.
pub fn version_response(ctx: &ServerContext) -> (r: HttpResponse)
    ensures
        is_text_response(r, 200, "text/plain; charset=utf-8"@, ctx.version@),
{
    let headers = singleton_headers("content-type", "text/plain; charset=utf-8");
    HttpResponse { status: 200, headers, body: Body::Text(ctx.version.clone()) }
}

/// What a snippet request must be answered with: the resolved fragment as
/// JavaScript, or a not-found response describing the failure.
pub open spec fn is_snippet_response(resp: HttpResponse, ctx: ServerContext, rest: Seq<char>) -> bool {
    match spec_resolve(rest, ctx.output.local_modules@, ctx.output.snippets@) {
        Ok(body) => is_text_response(resp, 200, "application/javascript"@, body),
        Err(e) => is_text_response(
            resp,
            404,
            "text/plain; charset=utf-8"@,
            match e {
                SnippetError::InvalidPath => "invalid snippet path"@,
                SnippetError::InvalidName => "invalid snippet name in path"@,
                SnippetError::InvalidIndex => "invalid index"@,
                SnippetError::UnknownGroup => "invalid snippet name"@,
                SnippetError::IndexOutOfBounds => "snippet index out of bounds"@,
            },
        ),
    }
}

/// Resolve and serve one snippet request; resolution failures become a
/// not-found response, never a crash.
pub fn snippet_response(ctx: &ServerContext, rest: &str) -> (r: HttpResponse)
    ensures
        is_snippet_response(r, *ctx, rest@),
{
    match get_snippet_source(rest, &ctx.output.local_modules, &ctx.output.snippets) {
        Ok(body) => {
            let headers = singleton_headers("content-type", "application/javascript");
            HttpResponse { status: 200, headers, body: Body::Text(body) }
        },
        Err(e) => {
            let headers = singleton_headers("content-type", "text/plain; charset=utf-8");
            HttpResponse {
                status: 404,
                headers,
                body: Body::Text(String::from_str(e.message())),
            }
        },
    }
}

/// A generic failure response for an unexpected error while serving a
/// static file, with the error's description.
pub fn internal_server_error(description: &str) -> (r: HttpResponse)
    ensures
        is_text_response(
            r,
            500,
            "text/plain; charset=utf-8"@,
            "Unhandled internal error: "@ + description@,
        ),
{
    let headers = singleton_headers("content-type", "text/plain; charset=utf-8");
    let mut text = String::from_str("Unhandled internal error: ");
    text.append(description);
    HttpResponse { status: 500, headers, body: Body::Text(text) }
}

/// What one request results in: a response built here, an upgrade to the
/// log bridge channel, or a static file served from the serve-root
/// directory.
pub enum RequestOutcome {
    Response(HttpResponse),
    UpgradeLogBridge,
    ServeStatic,
}

/// The snippet-resolver part of a snippet route path.
pub open spec fn snippet_rest(path: Seq<char>) -> Seq<char> {
    path.skip(snippets_prefix().len() as int)
}

/// Serve one request: dispatch the path through the route table, build
/// the owed response, and apply the security headers to it. The log
/// bridge upgrade and the static fallback are reported to the caller.
pub fn handle_request(ctx: &ServerContext, path: &str) -> (r: RequestOutcome)
    ensures
        ({
            let route = spec_route(path@);
            &&& route == Route::Index ==> (r matches RequestOutcome::Response(resp)
                && is_text_response(resp, 200, "text/html; charset=utf-8"@, ctx.html@))
            &&& route == Route::Script ==> (r matches RequestOutcome::Response(resp)
                && is_text_response(resp, 200, "application/javascript"@, ctx.output.js@))
            &&& route == Route::Binary ==> (r matches RequestOutcome::Response(resp)
                && is_bytes_response(resp, 200, "application/wasm"@, ctx.output.wasm@)
                && header_lookup(resp.headers@, "content-encoding"@) == spec_encoding_header(
                ctx.wasm_encoding,
            ))
            &&& route == Route::Version ==> (r matches RequestOutcome::Response(resp)
                && is_text_response(resp, 200, "text/plain; charset=utf-8"@, ctx.version@))
            &&& route == Route::Snippet ==> (r matches RequestOutcome::Response(resp)
                && is_snippet_response(resp, *ctx, snippet_rest(path@)))
            &&& route == Route::LogBridge ==> r is UpgradeLogBridge
            &&& route == Route::Static ==> r is ServeStatic
            &&& (r matches RequestOutcome::Response(resp) ==> header_lookup(
                resp.headers@,
                "cross-origin-opener-policy"@,
            ) is Some && header_lookup(resp.headers@, "cross-origin-embedder-policy"@) is Some)
        }),
{
    proof {
        reveal_strlit("content-type");
        reveal_strlit("content-encoding");
        reveal_strlit("cross-origin-opener-policy");
        reveal_strlit("cross-origin-embedder-policy");
        assert("content-type"@.len() != "cross-origin-opener-policy"@.len());
        assert("content-type"@.len() != "cross-origin-embedder-policy"@.len());
        assert("content-encoding"@.len() != "cross-origin-opener-policy"@.len());
        assert("content-encoding"@.len() != "cross-origin-embedder-policy"@.len());
    }
    match route_path(path) {
        Route::Index => RequestOutcome::Response(with_security_headers(index_response(ctx))),
        Route::Script => RequestOutcome::Response(with_security_headers(script_response(ctx))),
        Route::Binary => RequestOutcome::Response(with_security_headers(wasm_response(ctx))),
        Route::Version => RequestOutcome::Response(with_security_headers(version_response(ctx))),
        Route::LogBridge => RequestOutcome::UpgradeLogBridge,
        Route::Snippet => {
            let len = path.unicode_len();
            let plen = "/api/snippets/".unicode_len();
            let rest = substring_copy(path, plen, len);
            proof {
                assert(rest@ =~= snippet_rest(path@));
            }
            RequestOutcome::Response(with_security_headers(snippet_response(ctx, rest.as_str())))
        },
        Route::Static => RequestOutcome::ServeStatic,
    }
}

/// Within one process lifetime the version endpoint is idempotent: every
/// response it is answered with carries the context's one version token,
/// so any two such responses hold the same body. A fresh process builds a
/// fresh context whose token is drawn anew.
pub proof fn lemma_version_idempotent(
    ctx: ServerContext,
    first: HttpResponse,
    second: HttpResponse,
)
    requires
        is_text_response(first, 200, "text/plain; charset=utf-8"@, ctx.version@),
        is_text_response(second, 200, "text/plain; charset=utf-8"@, ctx.version@),
    ensures
        first.body matches Body::Text(a) && second.body matches Body::Text(b) && a@ == b@,
{
}

} // verus!
