//! Language names for display, by file extension.

use vstd::prelude::*;
use crate::text::{base_start, base_start_of, chars_of, str_equal, substring};

verus! {

/// Position of the last `.` among the characters `from..n`, as the position
/// behind it; `from` where there is none.
pub open spec fn last_dot_upto(s: Seq<char>, from: int, n: int) -> int
    decreases n - from,
{
    if n <= from || n > s.len() {
        from
    } else if s[n - 1] == '.' {
        n
    } else {
        last_dot_upto(s, from, n - 1)
    }
}

/// The extension of a file name: what follows the last `.` of the last
/// `/`-separated component. A component without a `.`, or whose only `.`
/// is its first character, has none.
pub open spec fn spec_extension(filename: Seq<char>) -> Option<Seq<char>> {
    let start = base_start(filename);
    let after_dot = last_dot_upto(filename, start, filename.len() as int);
    if after_dot <= start + 1 {
        None
    } else {
        Some(filename.skip(after_dot))
    }
}

/// The language shown for an extension.
pub open spec fn language_of(ext: Seq<char>) -> Seq<char> {
    if ext == "rs"@ {
        "Rust"@
    } else if ext == "go"@ {
        "Go"@
    } else if ext == "js"@ {
        "JavaScript"@
    } else if ext == "ts"@ {
        "TypeScript"@
    } else if ext == "tsx"@ {
        "TypeScript React"@
    } else if ext == "jsx"@ {
        "JavaScript React"@
    } else if ext == "py"@ {
        "Python"@
    } else if ext == "rb"@ {
        "Ruby"@
    } else if ext == "java"@ {
        "Java"@
    } else if ext == "c"@ {
        "C"@
    } else if ext == "cpp"@ || ext == "cc"@ || ext == "cxx"@ {
        "C++"@
    } else if ext == "h"@ || ext == "hpp"@ {
        "C/C++ Header"@
    } else if ext == "md"@ {
        "Markdown"@
    } else if ext == "json"@ {
        "JSON"@
    } else if ext == "yaml"@ || ext == "yml"@ {
        "YAML"@
    } else if ext == "toml"@ {
        "TOML"@
    } else if ext == "html"@ {
        "HTML"@
    } else if ext == "css"@ {
        "CSS"@
    } else if ext == "scss"@ || ext == "sass"@ {
        "Sass"@
    } else if ext == "sql"@ {
        "SQL"@
    } else if ext == "sh"@ || ext == "bash"@ {
        "Shell"@
    } else if ext == "dockerfile"@ {
        "Dockerfile"@
    } else {
        "Plain Text"@
    }
}

/// The language shown for a file name: that of its extension, and plain
/// text for a name without extension.
pub open spec fn spec_detect_language(filename: Seq<char>) -> Seq<char> {
    match spec_extension(filename) {
        Some(ext) => language_of(ext),
        None => "Plain Text"@,
    }
}

/// The extension that a highlighter is to try for an extension it has no
/// grammar for.
pub open spec fn spec_fallback_extension(ext: Seq<char>) -> Option<Seq<char>> {
    if ext == "ts"@ || ext == "tsx"@ || ext == "mts"@ || ext == "cts"@ || ext == "jsx"@ {
        Some("js"@)
    } else if ext == "vue"@ || ext == "svelte"@ {
        Some("html"@)
    } else if ext == "zsh"@ || ext == "fish"@ {
        Some("sh"@)
    } else if ext == "jsonc"@ {
        Some("json"@)
    } else {
        None
    }
}

/// The extension of a file name.
pub fn extension(filename: &str) -> (ext: Option<String>)
    ensures
        match ext {
            Some(e) => spec_extension(filename@) == Some(e@),
            None => spec_extension(filename@) is None,
        },
{
    let chars = chars_of(filename);
    let start = base_start_of(chars.as_slice());
    let mut n: usize = chars.len();
    while n > start && chars[n - 1] != '.'
        invariant
            start <= n <= chars@.len(),
            chars@ == filename@,
            last_dot_upto(filename@, start as int, n as int) == last_dot_upto(
                filename@,
                start as int,
                filename@.len() as int,
            ),
        decreases n,
    {
        n -= 1;
    }
    if n - start <= 1 {
        None
    } else {
        let ext = substring(filename, n, chars.len());
        assert(ext@ =~= filename@.skip(n as int));
        Some(ext)
    }
}

/// The language shown for an extension.
pub fn language_for_extension(ext: &str) -> (language: &'static str)
    ensures
        language@ == language_of(ext@),
{
    if str_equal(ext, "rs") {
        "Rust"
    } else if str_equal(ext, "go") {
        "Go"
    } else if str_equal(ext, "js") {
        "JavaScript"
    } else if str_equal(ext, "ts") {
        "TypeScript"
    } else if str_equal(ext, "tsx") {
        "TypeScript React"
    } else if str_equal(ext, "jsx") {
        "JavaScript React"
    } else if str_equal(ext, "py") {
        "Python"
    } else if str_equal(ext, "rb") {
        "Ruby"
    } else if str_equal(ext, "java") {
        "Java"
    } else if str_equal(ext, "c") {
        "C"
    } else if str_equal(ext, "cpp") || str_equal(ext, "cc") || str_equal(ext, "cxx") {
        "C++"
    } else if str_equal(ext, "h") || str_equal(ext, "hpp") {
        "C/C++ Header"
    } else if str_equal(ext, "md") {
        "Markdown"
    } else if str_equal(ext, "json") {
        "JSON"
    } else if str_equal(ext, "yaml") || str_equal(ext, "yml") {
        "YAML"
    } else if str_equal(ext, "toml") {
        "TOML"
    } else if str_equal(ext, "html") {
        "HTML"
    } else if str_equal(ext, "css") {
        "CSS"
    } else if str_equal(ext, "scss") || str_equal(ext, "sass") {
        "Sass"
    } else if str_equal(ext, "sql") {
        "SQL"
    } else if str_equal(ext, "sh") || str_equal(ext, "bash") {
        "Shell"
    } else if str_equal(ext, "dockerfile") {
        "Dockerfile"
    } else {
        "Plain Text"
    }
}

/// The language shown for a file name.
pub fn detect_language(filename: &str) -> (language: &'static str)
    ensures
        language@ == spec_detect_language(filename@),
{
    match extension(filename) {
        Some(ext) => language_for_extension(ext.as_str()),
        None => "Plain Text",
    }
}

/// The extension that a highlighter is to try for an extension it has no
/// grammar for.
pub fn fallback_extension(ext: &str) -> (fallback: Option<&'static str>)
    ensures
        match fallback {
            Some(f) => spec_fallback_extension(ext@) == Some(f@),
            None => spec_fallback_extension(ext@) is None,
        },
{
    if str_equal(ext, "ts") || str_equal(ext, "tsx") || str_equal(ext, "mts") || str_equal(
        ext,
        "cts",
    ) || str_equal(ext, "jsx") {
        Some("js")
    } else if str_equal(ext, "vue") || str_equal(ext, "svelte") {
        Some("html")
    } else if str_equal(ext, "zsh") || str_equal(ext, "fish") {
        Some("sh")
    } else if str_equal(ext, "jsonc") {
        Some("json")
    } else {
        None
    }
}

} // verus!
