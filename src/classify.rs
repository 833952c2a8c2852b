//! Name-level decisions about directory entries: hidden names, the extension
//! of a name, and the allow-list of text-like extensions.
use vstd::prelude::*;

verus! {

/// A name is hidden when it starts with a dot.
pub open spec fn spec_is_hidden(name: Seq<char>) -> bool {
    name.len() > 0 && name[0] == '.'
}

/// Index of the last `.` in `s`, or -1 when there is none.
pub open spec fn last_dot(s: Seq<char>) -> int
    decreases s.len(),
{
    if s.len() == 0 {
        -1
    } else if s.last() == '.' {
        s.len() - 1
    } else {
        last_dot(s.drop_last())
    }
}

/// The extension of an entry name: the text after its last dot, where that dot
/// is not the first character. The name `..` has none.
pub open spec fn spec_extension(name: Seq<char>) -> Option<Seq<char>> {
    let d = last_dot(name);
    if name =~= seq!['.', '.'] || d <= 0 {
        None
    } else {
        Some(name.subrange(d + 1, name.len() as int))
    }
}

/// The allow-list of text-like extensions, matched case-sensitively.
pub open spec fn spec_is_text_extension(e: Seq<char>) -> bool {
    // markdown and plain text
    e == "md"@ || e == "markdown"@ || e == "txt"@ || e == "text"@
    // source code, markup and styles
    || e == "js"@ || e == "ts"@ || e == "jsx"@ || e == "tsx"@ || e == "vue"@ || e == "svelte"@
    || e == "html"@ || e == "htm"@ || e == "xml"@ || e == "svg"@
    || e == "css"@ || e == "scss"@ || e == "sass"@ || e == "less"@
    || e == "json"@ || e == "yaml"@ || e == "yml"@ || e == "toml"@
    || e == "rs"@ || e == "go"@ || e == "py"@ || e == "rb"@ || e == "php"@
    || e == "java"@ || e == "kt"@ || e == "scala"@ || e == "swift"@
    || e == "c"@ || e == "cpp"@ || e == "h"@ || e == "hpp"@ || e == "cs"@ || e == "fs"@
    // shells and scripts
    || e == "sh"@ || e == "bash"@ || e == "zsh"@ || e == "fish"@
    || e == "ps1"@ || e == "bat"@ || e == "cmd"@
    || e == "sql"@ || e == "graphql"@ || e == "gql"@
    // configuration
    || e == "env"@ || e == "ini"@ || e == "conf"@ || e == "cfg"@
    || e == "gitignore"@ || e == "dockerignore"@ || e == "editorconfig"@
    // documentation
    || e == "rst"@ || e == "adoc"@ || e == "org"@ || e == "tex"@
    // tabular data and logs
    || e == "csv"@ || e == "tsv"@ || e == "log"@
}

/// An entry takes part in a projection when it is a directory or a file with
/// a text-like extension.
pub open spec fn spec_is_projectable(is_dir: bool, ext: Option<Seq<char>>) -> bool {
    is_dir || (ext is Some && spec_is_text_extension(ext->0))
}

/// Character-wise equality of two strings.
pub fn str_eq(a: &str, b: &str) -> (r: bool)
    ensures
        r == (a@ == b@),
{
    let n = a.unicode_len();
    if n != b.unicode_len() {
        return false;
    }
    let mut i: usize = 0;
    while i < n
        invariant
            n == a@.len(),
            n == b@.len(),
            i <= n,
            a@.subrange(0, i as int) == b@.subrange(0, i as int),
        decreases n - i,
    {
        if a.get_char(i) != b.get_char(i) {
            return false;
        }
        assert(a@.subrange(0, i + 1) =~= a@.subrange(0, i as int).push(a@[i as int]));
        assert(b@.subrange(0, i + 1) =~= b@.subrange(0, i as int).push(b@[i as int]));
        i = i + 1;
    }
    assert(a@ =~= a@.subrange(0, n as int));
    assert(b@ =~= b@.subrange(0, n as int));
    true
}

/// Whether an entry name is hidden.
pub fn is_hidden(name: &str) -> (r: bool)
    ensures
        r == spec_is_hidden(name@),
{
    let n = name.unicode_len();
    n > 0 && name.get_char(0) == '.'
}

/// Position of the last dot of `s`, if any.
fn find_last_dot(s: &str) -> (r: Option<usize>)
    ensures
        match r {
            Some(i) => i as int == last_dot(s@) && i < s@.len(),
            None => last_dot(s@) == -1,
        },
{
    let n = s.unicode_len();
    let mut i: usize = n;
    assert(s@ =~= s@.subrange(0, n as int));
    while i > 0
        invariant
            n == s@.len(),
            i <= n,
            last_dot(s@) == last_dot(s@.subrange(0, i as int)),
        decreases i,
    {
        let sub = Ghost(s@.subrange(0, i as int));
        assert(sub@.drop_last() =~= s@.subrange(0, i - 1));
        if s.get_char(i - 1) == '.' {
            return Some(i - 1);
        }
        i = i - 1;
    }
    None
}

/// The extension of an entry name, as `Path::extension` gives it.
pub fn extension_of(name: &str) -> (r: Option<String>)
    ensures
        r matches Some(e) ==> spec_extension(name@) == Some(e@),
        r is None ==> spec_extension(name@) is None,
{
    assert(name@ =~= name@.subrange(0, name@.len() as int));
    let n = name.unicode_len();
    if n == 2 && name.get_char(0) == '.' && name.get_char(1) == '.' {
        assert(name@ =~= seq!['.', '.']);
        return None;
    }
    match find_last_dot(name) {
        None => None,
        Some(d) => {
            if d == 0 {
                None
            } else {
                let ext = name.substring_char(d + 1, n);
                Some(String::from_str(ext))
            }
        },
    }
}

/// Whether an extension belongs to the text-like allow-list. No extension
/// never does.
pub fn is_text_file_extension(ext: Option<&str>) -> (r: bool)
    ensures
        r == (ext is Some && spec_is_text_extension(ext->0@)),
{
    match ext {
        None => false,
        Some(e) => {
            str_eq(e, "md") || str_eq(e, "markdown") || str_eq(e, "txt") || str_eq(e, "text")
            || str_eq(e, "js") || str_eq(e, "ts") || str_eq(e, "jsx") || str_eq(e, "tsx")
            || str_eq(e, "vue") || str_eq(e, "svelte")
            || str_eq(e, "html") || str_eq(e, "htm") || str_eq(e, "xml") || str_eq(e, "svg")
            || str_eq(e, "css") || str_eq(e, "scss") || str_eq(e, "sass") || str_eq(e, "less")
            || str_eq(e, "json") || str_eq(e, "yaml") || str_eq(e, "yml") || str_eq(e, "toml")
            || str_eq(e, "rs") || str_eq(e, "go") || str_eq(e, "py") || str_eq(e, "rb")
            || str_eq(e, "php") || str_eq(e, "java") || str_eq(e, "kt") || str_eq(e, "scala")
            || str_eq(e, "swift") || str_eq(e, "c") || str_eq(e, "cpp") || str_eq(e, "h")
            || str_eq(e, "hpp") || str_eq(e, "cs") || str_eq(e, "fs")
            || str_eq(e, "sh") || str_eq(e, "bash") || str_eq(e, "zsh") || str_eq(e, "fish")
            || str_eq(e, "ps1") || str_eq(e, "bat") || str_eq(e, "cmd")
            || str_eq(e, "sql") || str_eq(e, "graphql") || str_eq(e, "gql")
            || str_eq(e, "env") || str_eq(e, "ini") || str_eq(e, "conf") || str_eq(e, "cfg")
            || str_eq(e, "gitignore") || str_eq(e, "dockerignore") || str_eq(e, "editorconfig")
            || str_eq(e, "rst") || str_eq(e, "adoc") || str_eq(e, "org") || str_eq(e, "tex")
            || str_eq(e, "csv") || str_eq(e, "tsv") || str_eq(e, "log")
        },
    }
}

} // verus!
