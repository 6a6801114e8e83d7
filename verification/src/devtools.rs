//! The local devtools bridge's decision logic: recognizing the one HTTP
//! request the bridge serves, building its response, and the bootstrap
//! script injected into pages. The sockets themselves live in the shell;
//! everything here is string work on plain values.

use vstd::prelude::*;
use vstd::string::*;
use crate::text::{chars_of, dec_digits, push_dec, push_str_chars, starts_with, starts_with_exec,
    string_from_chars};

verus! {

/// The local devtools bridge: one port, one script to serve.
pub struct DevToolsManager {
    port: u16,
    target_js: String,
}

/// The head of the bootstrap script, up to the bridge's port number.
pub open spec fn bootstrap_head() -> Seq<char> {
    "(function() {\n    if (window.__SOVEREIGN_DEVTOOLS_READY__) return;\n    window.__SOVEREIGN_DEVTOOLS_READY__ = true;\n    window.__SOVEREIGN_LOAD_DEVTOOLS__ = function() {\n        if (document.getElementById('sovereign-devtools-script')) return;\n        console.log('Sovereign: Connecting to DevTools Bridge...');\n        var script = document.createElement('script');\n        script.id = 'sovereign-devtools-script';\n        script.src = 'http://127.0.0.1:"@
}

/// The tail of the bootstrap script, after the port number.
pub open spec fn bootstrap_tail() -> Seq<char> {
    "/target.js';\n        document.head.appendChild(script);\n    };\n})();\n"@
}

impl DevToolsManager {
    /// The bridge's port.
    pub closed spec fn spec_port(&self) -> u16 {
        self.port
    }

    /// The script the bridge serves.
    pub closed spec fn spec_target_js(&self) -> Seq<char> {
        self.target_js@
    }

    /// A bridge for `port`, serving `target_js`. The shell loads the script
    /// asset and starts the listener.
    pub fn new(port: u16, target_js: String) -> (r: DevToolsManager)
        ensures
            r.spec_port() == port,
            r.spec_target_js() == target_js@,
    {
        DevToolsManager { port, target_js }
    }

    /// A tiny, non-blocking script that prepares a page for debugging: on
    /// demand it loads the bridge's script from the bridge's port.
    pub fn get_bootstrapper(&self) -> (r: String)
        ensures
            r@ == bootstrap_head() + dec_digits(self.spec_port() as nat) + bootstrap_tail(),
    {
        let mut out: Vec<char> = Vec::new();
        push_str_chars(
            &mut out,
            "(function() {\n    if (window.__SOVEREIGN_DEVTOOLS_READY__) return;\n    window.__SOVEREIGN_DEVTOOLS_READY__ = true;\n    window.__SOVEREIGN_LOAD_DEVTOOLS__ = function() {\n        if (document.getElementById('sovereign-devtools-script')) return;\n        console.log('Sovereign: Connecting to DevTools Bridge...');\n        var script = document.createElement('script');\n        script.id = 'sovereign-devtools-script';\n        script.src = 'http://127.0.0.1:",
        );
        push_dec(&mut out, self.port as u64);
        push_str_chars(
            &mut out,
            "/target.js';\n        document.head.appendChild(script);\n    };\n})();\n",
        );
        string_from_chars(out.as_slice())
    }

    /// Whether the bytes that opened a connection ask for the one file the
    /// bridge serves over HTTP; anything else is treated as a WebSocket
    /// handshake.
    pub fn is_target_js_request(head: &str) -> (r: bool)
        ensures
            r == starts_with(head@, "GET /target.js"@),
    {
        let h = chars_of(head);
        let p = chars_of("GET /target.js");
        starts_with_exec(h.as_slice(), p.as_slice())
    }

    /// The HTTP response that serves the bridge's script, with its byte
    /// length as content length.
    pub fn http_js_response(&self) -> (r: String)
        ensures
            r@ == "HTTP/1.1 200 OK\r\nContent-Type: application/javascript\r\nContent-Length: "@
                + dec_digits(self.spec_target_js_bytes()) + "\r\nAccess-Control-Allow-Origin: *\r\n\r\n"@
                + self.spec_target_js(),
    {
        let mut out: Vec<char> = Vec::new();
        push_str_chars(
            &mut out,
            "HTTP/1.1 200 OK\r\nContent-Type: application/javascript\r\nContent-Length: ",
        );
        let byte_len: usize = self.target_js.as_str().len();
        assert(byte_len as nat == self.spec_target_js_bytes());
        push_dec(&mut out, byte_len as u64);
        push_str_chars(&mut out, "\r\nAccess-Control-Allow-Origin: *\r\n\r\n");
        push_str_chars(&mut out, self.target_js.as_str());
        assert(out@ =~= "HTTP/1.1 200 OK\r\nContent-Type: application/javascript\r\nContent-Length: "@
            + dec_digits(self.spec_target_js_bytes()) + "\r\nAccess-Control-Allow-Origin: *\r\n\r\n"@
            + self.spec_target_js());
        string_from_chars(out.as_slice())
    }

    /// The byte length of the served script, as its UTF-8 encoding has it
    /// and `str::len` reports it.
    pub closed spec fn spec_target_js_bytes(&self) -> nat {
        (vstd::utf8::encode_utf8(self.target_js@).len() as usize) as nat
    }
}

} // verus!
