//! The language-service model: normalized diagnostics, LSP position conversion, the wire types
//! the client reads, snippet expansion, and the server table. The client process and the JSON
//! codec live outside the library.
pub mod codec;
pub mod model;
pub mod params;
pub mod protocol;
pub mod session;
pub mod snippet;

use vstd::prelude::*;
use crate::text::{owned, str_equal};

verus! {

/// How to launch the language server for a file type: the key that deduplicates spawns (one
/// process serves every buffer of that language), the program, its arguments and the LSP
/// `languageId`.
#[derive(Clone, PartialEq, Eq, Debug)]
pub struct ServerSpec {
    pub key: &'static str,
    pub bin: &'static str,
    pub args: Vec<&'static str>,
    pub lang: &'static str,
}

/// The server table entry for extension `ext`: `(key, program, arguments, languageId)`.
pub open spec fn server_entry(ext: Seq<char>) -> Option<(Seq<char>, Seq<char>, Seq<Seq<char>>, Seq<char>)> {
    if ext == "rs"@ {
        Some(("rust-analyzer"@, "rust-analyzer"@, seq![], "rust"@))
    } else if ext == "py"@ || ext == "pyi"@ {
        Some(("pyright"@, "pyright-langserver"@, seq!["--stdio"@], "python"@))
    } else if ext == "ts"@ || ext == "tsx"@ {
        Some((
            "typescript-language-server"@,
            "typescript-language-server"@,
            seq!["--stdio"@],
            "typescript"@,
        ))
    } else if ext == "js"@ || ext == "jsx"@ || ext == "mjs"@ || ext == "cjs"@ {
        Some((
            "typescript-language-server"@,
            "typescript-language-server"@,
            seq!["--stdio"@],
            "javascript"@,
        ))
    } else if ext == "go"@ {
        Some(("gopls"@, "gopls"@, seq![], "go"@))
    } else if ext == "c"@ {
        Some(("clangd"@, "clangd"@, seq![], "c"@))
    } else if ext == "cc"@ || ext == "cpp"@ || ext == "cxx"@ || ext == "hpp"@ || ext == "hh"@ || ext
        == "hxx"@ || ext == "h"@ {
        Some(("clangd"@, "clangd"@, seq![], "cpp"@))
    } else if ext == "lua"@ {
        Some(("lua-language-server"@, "lua-language-server"@, seq![], "lua"@))
    } else {
        None
    }
}

/// The views of the arguments of a server.
pub open spec fn arg_views(args: Seq<&'static str>) -> Seq<Seq<char>> {
    args.map_values(|a: &'static str| a@)
}

fn entry(key: &'static str, bin: &'static str, stdio: bool, lang: &'static str) -> (r: ServerSpec)
    ensures
        r.key == key,
        r.bin == bin,
        r.lang == lang,
        arg_views(r.args@) == if stdio { seq!["--stdio"@] } else { Seq::<Seq<char>>::empty() },
{
    let mut args: Vec<&'static str> = Vec::new();
    if stdio {
        args.push("--stdio");
    }
    let r = ServerSpec { key, bin, args, lang };
    assert(arg_views(r.args@) =~= if stdio { seq!["--stdio"@] } else { Seq::<Seq<char>>::empty() });
    r
}

/// The language server for a file extension. The key dedups spawns so one process serves every
/// buffer of that language — `.ts` and `.js` share `typescript-language-server`, `.c`/`.cpp`/`.h`
/// share `clangd`. Unknown extensions have no server.
pub fn server_for_ext(ext: &str) -> (r: Option<ServerSpec>)
    ensures
        r is None <==> server_entry(ext@) is None,
        r matches Some(s) ==> server_entry(ext@) == Some((s.key@, s.bin@, arg_views(s.args@), s.lang@)),
{
    if str_equal(ext, "rs") {
        Some(entry("rust-analyzer", "rust-analyzer", false, "rust"))
    } else if str_equal(ext, "py") || str_equal(ext, "pyi") {
        Some(entry("pyright", "pyright-langserver", true, "python"))
    } else if str_equal(ext, "ts") || str_equal(ext, "tsx") {
        Some(entry("typescript-language-server", "typescript-language-server", true, "typescript"))
    } else if str_equal(ext, "js") || str_equal(ext, "jsx") || str_equal(ext, "mjs") || str_equal(
        ext,
        "cjs",
    ) {
        Some(entry("typescript-language-server", "typescript-language-server", true, "javascript"))
    } else if str_equal(ext, "go") {
        Some(entry("gopls", "gopls", false, "go"))
    } else if str_equal(ext, "c") {
        Some(entry("clangd", "clangd", false, "c"))
    } else if str_equal(ext, "cc") || str_equal(ext, "cpp") || str_equal(ext, "cxx") || str_equal(
        ext,
        "hpp",
    ) || str_equal(ext, "hh") || str_equal(ext, "hxx") || str_equal(ext, "h") {
        Some(entry("clangd", "clangd", false, "cpp"))
    } else if str_equal(ext, "lua") {
        Some(entry("lua-language-server", "lua-language-server", false, "lua"))
    } else {
        None
    }
}

/// A `file://` URI for an absolute path. No percent-encoding — language servers accept a raw
/// absolute path, and the same formatting is used for `didOpen` and for matching
/// `publishDiagnostics` back.
pub fn path_to_uri(path: &str) -> (r: String)
    ensures
        r@ == "file://"@ + path@,
{
    let mut out = owned("file://");
    out.append(path);
    out
}

} // verus!
