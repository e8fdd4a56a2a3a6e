//! Bundling of JavaScript: the names that the entry file imports from the
//! library, the modules that export them, and the code of those exports.
use vstd::prelude::*;
use vstd::string::*;
use crate::config::Config;
use crate::errors::{CatrinaError, ErrorView};
use crate::import::{Import, ImportView};
use crate::text::{
    char_views, chars_of, contains, has_substring, is_ascii, is_ascii_char, replace, replace_all, split_chars, split_on,
    string_of, string_views, trim, trim_chars, is_white_space, law_trim_ends,
};
use crate::utils::{appended_text, file_to_vec_string, lines_of, lookup, FileSet, LineFilter};
use vstd::utf8::encode_utf8;

verus! {

/// Declares `regex::Error`, the error of a refused regular expression.
#[verifier::external_type_specification]
#[verifier::external_body]
pub struct ExRegexError(regex::Error);

/// Whether `regex::Regex::new` accepts `pattern`.
pub uninterp spec fn regex_accepts(pattern: Seq<char>) -> bool;

/// The text of the leftmost-first match of `pattern` in `text`, as
/// `regex::Regex::find` finds it, if there is one.
pub uninterp spec fn regex_leftmost_match(pattern: Seq<char>, text: Seq<char>) -> Option<Seq<char>>;

/// Trusted: `regex::Regex::new` compiles `pattern` or refuses it, and
/// `Regex::find` on the compiled expression gives the leftmost-first match in
/// `text`; both outcomes depend on their arguments alone.  What the match is
/// is not stated beyond its being a piece of `text`.
#[verifier::external_body]
fn regex_find(pattern: &str, text: &str) -> (r: Result<Option<String>, regex::Error>)
    ensures
        r is Ok == regex_accepts(pattern@),
        r matches Ok(m) ==> match m {
            Some(s) => regex_leftmost_match(pattern@, text@) == Some(s@) && has_substring(
                text@,
                s@,
            ),
            None => regex_leftmost_match(pattern@, text@) is None,
        },
{
    let re = regex::Regex::new(pattern)?;
    Ok(re.find(text).map(|m| m.as_str().to_string()))
}

/// The characters of `s` from index `start` up to index `end`, as
/// `substring::Substring::substring` gives them: nothing unless `end` is
/// beyond `start`, and both bounds cut at the end of `s`.
pub open spec fn substring_spec(s: Seq<char>, start: int, end: int) -> Seq<char> {
    if end <= start {
        Seq::empty()
    } else {
        let a = if start < s.len() {
            start
        } else {
            s.len() as int
        };
        let b = if end < s.len() {
            end
        } else {
            s.len() as int
        };
        s.subrange(a, b)
    }
}

/// Trusted: `substring::Substring::substring` gives the characters of `s`
/// from index `start` up to index `end` (see `substring_spec`).
#[verifier::external_body]
fn substring_chars(s: &str, start: usize, end: usize) -> (r: String)
    ensures
        r@ == substring_spec(s@, start as int, end as int),
{
    substring::Substring::substring(s, start, end).to_string()
}

/// What `html_minifier::js::minify` (that is, the `minifier` crate) makes of
/// a script.
pub uninterp spec fn js_minified(content: Seq<char>) -> Seq<char>;

/// Trusted: `html_minifier::js::minify` minifies a script; the outcome
/// depends on the text alone.  What it is is not stated.  The `requires`
/// leaves out the texts on which its tokenizer panics (see
/// `js_minify_safe`).
#[verifier::external_body]
fn minify_js(content: &str) -> (r: String)
    requires
        js_minify_safe(content@),
    ensures
        r@ == js_minified(content@),
{
    html_minifier::js::minify(content)
}

/// What minifying a script gives: the minified text, or why there is none.
pub open spec fn js_minify_outcome(s: Seq<char>) -> Result<Seq<char>, ErrorView> {
    if !js_minify_safe(s) {
        Err(ErrorView::MinifyUnsafe)
    } else {
        Ok(js_minified(s))
    }
}

/// A script minified, or why it cannot be (see `js_minify_outcome`).
pub fn js_minify_checked(content: &str) -> (r: Result<String, CatrinaError>)
    ensures
        text_view(r) == js_minify_outcome(content@),
{
    if js_safe_for_minifier(content) {
        Ok(Parser::minify_file_content(content))
    } else {
        Err(CatrinaError::MinifyUnsafe)
    }
}

/// Whether the character at `i` of a script is one that the minifier
/// takes: after a `/` or a `*`, an ASCII character, and after `*!` an ASCII
/// character again.
pub open spec fn js_safe_at(s: Seq<char>, i: int) -> bool {
    &&& ((s[i] == '/' || s[i] == '*') && i + 1 < s.len()) ==> is_ascii_char(s[i + 1])
    &&& (s[i] == '*' && i + 2 < s.len() && s[i + 1] == '!') ==> is_ascii_char(s[i + 2])
}

/// Scripts on which the minifier of the `minifier` crate cannot panic: no
/// non-ASCII character right after a `/` or a `*`, nor right after `*!`.
/// On a comment with no end its tokenizer cuts the text one byte past those
/// characters, inside such a character; a text that breaks this condition
/// is not taken, whether or not its comments end.
pub open spec fn js_minify_safe(s: Seq<char>) -> bool {
    forall|i: int| 0 <= i < s.len() ==> #[trigger] js_safe_at(s, i)
}

/// Whether the minifier takes the script `content` (see `js_minify_safe`).
pub fn js_safe_for_minifier(content: &str) -> (b: bool)
    ensures
        b == js_minify_safe(content@),
{
    let v = chars_of(content);
    let n: usize = v.len();
    let mut i: usize = 0;
    while i < n
        invariant
            i <= n,
            n == v@.len(),
            v@ == content@,
            forall|k: int| 0 <= k < i ==> #[trigger] js_safe_at(v@, k),
        decreases n - i,
    {
        if (v[i] == '/' || v[i] == '*') && n - i > 1 && !is_ascii(v[i + 1]) {
            assert(!js_safe_at(v@, i as int));
            return false;
        }
        if v[i] == '*' && n - i > 2 && v[i + 1] == '!' && !is_ascii(v[i + 2]) {
            assert(!js_safe_at(v@, i as int));
            return false;
        }
        assert(js_safe_at(v@, i as int));
        i = i + 1;
    }
    true
}

/// The expression for the list of names of an import line: a `{`, at least
/// one character, and the last `}` after it.
pub open spec fn names_pattern() -> Seq<char> {
    "\\{.+}"@
}

/// The expression for the path of an import line: the text between the first
/// and the last double quote, with at least one character between.
pub open spec fn path_pattern() -> Seq<char> {
    "\".+\""@
}

/// The names that a matched `{...}` list holds: the text without its first
/// character and without as many characters at the end as its UTF-8 length
/// exceeds one (so the closing brace of an ASCII list), cut at the commas,
/// each piece trimmed.
pub open spec fn names_in_match(m: Seq<char>) -> Seq<Seq<char>> {
    split_on(substring_spec(m, 1, encode_utf8(m).len() - 1), ',').map_values(
        |p: Seq<char>| trim(p),
    )
}

/// Every name read from a matched `{...}` list is trimmed: none begins or
/// ends with a white-space character.
pub proof fn law_names_trimmed(m: Seq<char>)
    ensures
        forall|k: int|
            0 <= k < names_in_match(m).len() && (#[trigger] names_in_match(m)[k]).len() > 0 ==> {
                &&& !is_white_space(names_in_match(m)[k][0])
                &&& !is_white_space(names_in_match(m)[k].last())
            },
{
    let pieces = split_on(substring_spec(m, 1, encode_utf8(m).len() - 1), ',');
    assert forall|k: int|
        0 <= k < names_in_match(m).len() && (#[trigger] names_in_match(m)[k]).len() > 0 implies {
            &&& !is_white_space(names_in_match(m)[k][0])
            &&& !is_white_space(names_in_match(m)[k].last())
        } by {
        assert(names_in_match(m)[k] == trim(pieces[k]));
        law_trim_ends(pieces[k]);
    }
}

/// The outcome of reading the names of an import line.
pub open spec fn names_outcome(line: Seq<char>) -> Result<Seq<Seq<char>>, ErrorView> {
    if !regex_accepts(names_pattern()) {
        Err(ErrorView::BadExpression)
    } else {
        match regex_leftmost_match(names_pattern(), line) {
            None => Err(ErrorView::NoCoincidences),
            Some(m) => if m.len() == 0 {
                Err(ErrorView::EmptyMatch)
            } else {
                Ok(names_in_match(m))
            },
        }
    }
}

/// The outcome of reading the path of an import line: the quoted text
/// without its double quotes and without `"./"`.
pub open spec fn path_outcome(line: Seq<char>) -> Result<Seq<char>, ErrorView> {
    if !regex_accepts(path_pattern()) {
        Err(ErrorView::BadExpression)
    } else {
        match regex_leftmost_match(path_pattern(), line) {
            None => Err(ErrorView::NoCoincidences),
            Some(m) => Ok(
                replace_all(replace_all(m, "\""@, Seq::empty()), "./"@, Seq::empty()),
            ),
        }
    }
}

/// The outcome of reading an import line: its names, then its path; when
/// `canonicalize` is set the path is given inside the library, as the
/// library location, a slash and the path.
pub open spec fn import_outcome(line: Seq<char>, lib: Seq<char>, canonicalize: bool) -> Result<
    ImportView,
    ErrorView,
> {
    match names_outcome(line) {
        Err(e) => Err(e),
        Ok(names) => match path_outcome(line) {
            Err(e) => Err(e),
            Ok(path) => Ok(
                ImportView {
                    names,
                    path: if canonicalize {
                        lib + "/"@ + path
                    } else {
                        path
                    },
                },
            ),
        },
    }
}

/// A list of names or an error, as plain values.
pub open spec fn names_view(r: Result<Vec<String>, CatrinaError>) -> Result<
    Seq<Seq<char>>,
    ErrorView,
> {
    match r {
        Ok(v) => Ok(string_views(v@)),
        Err(e) => Err(e@),
    }
}

/// A text or an error, as plain values.
pub open spec fn text_view(r: Result<String, CatrinaError>) -> Result<Seq<char>, ErrorView> {
    match r {
        Ok(s) => Ok(s@),
        Err(e) => Err(e@),
    }
}

/// An import or an error, as plain values.
pub open spec fn import_view(r: Result<Import, CatrinaError>) -> Result<ImportView, ErrorView> {
    match r {
        Ok(i) => Ok(i@),
        Err(e) => Err(e@),
    }
}

proof fn lemma_utf8_nonempty(s: Seq<char>)
    requires
        s.len() > 0,
    ensures
        encode_utf8(s).len() >= 1,
{
    reveal_with_fuel(encode_utf8, 2);
}

/// The names of a matched `{...}` list (see `names_in_match`).
pub fn names_from_match(m: &str) -> (names: Vec<String>)
    requires
        m@.len() > 0,
    ensures
        string_views(names@) == names_in_match(m@),
{
    proof {
        lemma_utf8_nonempty(m@);
    }
    let byte_len: usize = m.as_bytes().len();
    let inner = substring_chars(m, 1, byte_len - 1);
    let v = chars_of(inner.as_str());
    let pieces = split_chars(v.as_slice(), ',');
    let ghost ps = char_views(pieces@);
    let mut names: Vec<String> = Vec::new();
    let mut i: usize = 0;
    while i < pieces.len()
        invariant
            i <= pieces@.len(),
            ps == char_views(pieces@),
            string_views(names@) == ps.take(i as int).map_values(|p: Seq<char>| trim(p)),
        decreases pieces@.len() - i,
    {
        let t = trim_chars(pieces[i].as_slice());
        let s = string_of(t.as_slice());
        let ghost before = names@;
        names.push(s);
        assert(string_views(names@) =~= string_views(before).push(s@));
        assert(ps.take(i + 1).map_values(|p: Seq<char>| trim(p)) =~= ps.take(i as int).map_values(
            |p: Seq<char>| trim(p),
        ).push(trim(ps[i as int])));
        i = i + 1;
    }
    assert(ps.take(pieces@.len() as int) =~= ps);
    names
}

/// The JavaScript parser: the modules of the library with the names each
/// exports, and the project configuration.
pub struct Parser {
    directory: Vec<Import>,
    config: Config,
}

impl Parser {
    /// The parser for the library modules `directory`.
    pub fn new(directory: Vec<Import>, config: Config) -> (p: Parser)
        ensures
            p.directory() == directory@,
            p.config() == config,
    {
        Parser { directory, config }
    }

    /// The library modules and the names each exports.
    pub closed spec fn directory(&self) -> Seq<Import> {
        self.directory@
    }

    /// The configuration that the parser works for.
    pub closed spec fn config(&self) -> Config {
        self.config
    }

    /// The names in the `{...}` list of an import or export line.
    pub fn obtain_names(line: &str) -> (r: Result<Vec<String>, CatrinaError>)
        ensures
            names_view(r) == names_outcome(line@),
    {
        match regex_find("\\{.+}", line) {
            Err(_) => Err(CatrinaError::BadExpression),
            Ok(None) => Err(CatrinaError::NoCoincidences),
            Ok(Some(m)) => {
                if m.as_str().is_empty() {
                    Err(CatrinaError::EmptyMatch)
                } else {
                    Ok(names_from_match(m.as_str()))
                }
            },
        }
    }

    /// The path in double quotes of an import or export line, without the
    /// quotes and without `"./"`.
    pub fn obtain_path(line: &str) -> (r: Result<String, CatrinaError>)
        ensures
            text_view(r) == path_outcome(line@),
    {
        match regex_find("\".+\"", line) {
            Err(_) => Err(CatrinaError::BadExpression),
            Ok(None) => Err(CatrinaError::NoCoincidences),
            Ok(Some(m)) => {
                proof {
                    reveal_strlit("\"");
                    reveal_strlit("./");
                    reveal_strlit("");
                }
                assert(""@ =~= Seq::<char>::empty());
                let a = replace(m.as_str(), "\"", "");
                Ok(replace(a.as_str(), "./", ""))
            },
        }
    }

    /// The import that an `import` or `export` line of a script states.  With
    /// `canonicalize` the path is put inside the library, for the caller to
    /// resolve on the file system into an absolute path.
    pub fn new_import_by_line(line: &str, config: &Config, canonicalize: bool) -> (r: Result<
        Import,
        CatrinaError,
    >)
        ensures
            import_view(r) == import_outcome(line@, config.location_lib@, canonicalize),
    {
        let names = match Parser::obtain_names(line) {
            Ok(n) => n,
            Err(e) => {
                return Err(e);
            },
        };
        let path = match Parser::obtain_path(line) {
            Ok(p) => p,
            Err(e) => {
                return Err(e);
            },
        };
        if canonicalize {
            proof {
                reveal_strlit("/");
            }
            let full = String::from_str(config.location_lib.as_str()).concat("/").concat(
                path.as_str(),
            );
            Ok(Import { names, path: full })
        } else {
            Ok(Import { names, path })
        }
    }

    /// The JavaScript bundle minified.
    pub fn minify_file_content(content: &str) -> (out: String)
        requires
            js_minify_safe(content@),
        ensures
            out@ == js_minified(content@),
    {
        minify_js(content)
    }
}


/// The line that closes an exported block.
pub open spec fn end_export() -> Seq<char> {
    "//@stop"@
}

/// Scanning `lines` for the export of `name`: the lines kept so far, and
/// whether an exported block is open.  A block opens at a line that holds
/// both `name` and `"export"`, and runs up to, but without, the next line
/// that holds `"//@stop"`.
pub open spec fn export_scan(lines: Seq<Seq<char>>, name: Seq<char>) -> (Seq<Seq<char>>, bool)
    decreases lines.len(),
{
    if lines.len() == 0 {
        (Seq::empty(), false)
    } else {
        let (out, ev) = export_scan(lines.drop_last(), name);
        let line = lines.last();
        if (has_substring(line, name) && has_substring(line, "export"@)) || ev {
            if has_substring(line, end_export()) {
                (out, false)
            } else {
                (out.push(line), true)
            }
        } else {
            (out, ev)
        }
    }
}

/// Whether a line opens the export of `name`: it holds `name` and the word
/// `"export"`.
pub open spec fn opens_export(line: Seq<char>, name: Seq<char>) -> bool {
    has_substring(line, name) && has_substring(line, "export"@)
}

/// Whether line `i` of a module lies in an export block of `name`: some
/// line at or before it opens the export, and no line from that one up to
/// line `i` holds `"//@stop"`.
pub open spec fn in_export_block(lines: Seq<Seq<char>>, name: Seq<char>, i: int) -> bool {
    exists|o: int|
        0 <= o <= i && #[trigger] opens_export(lines[o], name) && forall|m: int|
            o <= m <= i ==> !has_substring(#[trigger] lines[m], "//@stop"@)
}

proof fn lemma_block_prefix(lines: Seq<Seq<char>>, name: Seq<char>, i: int)
    requires
        lines.len() > 0,
        0 <= i < lines.len() - 1,
    ensures
        in_export_block(lines.drop_last(), name, i) == in_export_block(lines, name, i),
{
    let p = lines.drop_last();
    if in_export_block(p, name, i) {
        let o = choose|o: int|
            0 <= o <= i && #[trigger] opens_export(p[o], name) && forall|m: int|
                o <= m <= i ==> !has_substring(#[trigger] p[m], "//@stop"@);
        assert(p[o] == lines[o]);
        assert forall|m: int| o <= m <= i implies !has_substring(#[trigger] lines[m], "//@stop"@) by {
            assert(p[m] == lines[m]);
        }
    }
    if in_export_block(lines, name, i) {
        let o = choose|o: int|
            0 <= o <= i && #[trigger] opens_export(lines[o], name) && forall|m: int|
                o <= m <= i ==> !has_substring(#[trigger] lines[m], "//@stop"@);
        assert(p[o] == lines[o]);
        assert forall|m: int| o <= m <= i implies !has_substring(#[trigger] p[m], "//@stop"@) by {
            assert(p[m] == lines[m]);
        }
    }
}

/// How many of the first `n` lines of a module lie in export blocks of
/// `name`.
pub open spec fn block_line_count(lines: Seq<Seq<char>>, name: Seq<char>, n: int) -> nat
    decreases n,
{
    if n <= 0 {
        0
    } else {
        block_line_count(lines, name, n - 1) + if in_export_block(lines, name, n - 1) {
            1nat
        } else {
            0nat
        }
    }
}

proof fn lemma_block_count_prefix(lines: Seq<Seq<char>>, name: Seq<char>, n: int)
    requires
        lines.len() > 0,
        0 <= n <= lines.len() - 1,
    ensures
        block_line_count(lines.drop_last(), name, n) == block_line_count(lines, name, n),
    decreases n,
{
    if n > 0 {
        lemma_block_count_prefix(lines, name, n - 1);
        lemma_block_prefix(lines, name, n - 1);
    }
}

/// Every line that lies in an export block of `name` is kept: there are as
/// many kept lines as lines in such blocks.
pub proof fn law_export_scan_keeps_every_block_line(lines: Seq<Seq<char>>, name: Seq<char>)
    ensures
        export_scan(lines, name).0.len() == block_line_count(lines, name, lines.len() as int),
    decreases lines.len(),
{
    if lines.len() > 0 {
        let p = lines.drop_last();
        law_export_scan_keeps_every_block_line(p, name);
        law_export_scan_keeps_block_lines(lines, name);
        law_export_scan_keeps_block_lines(p, name);
        lemma_block_count_prefix(lines, name, p.len() as int);
        let n = lines.len() - 1;
        let x = lines[n];
        assert(x == lines.last());
        reveal_strlit("export");
        reveal_strlit("//@stop");
        if in_export_block(lines, name, n) {
            let o = choose|o: int|
                0 <= o <= n && #[trigger] opens_export(lines[o], name) && forall|m: int|
                    o <= m <= n ==> !has_substring(#[trigger] lines[m], "//@stop"@);
            assert(!has_substring(x, "//@stop"@));
        }
    }
}

/// The lines kept for the export of `name` all lie in export blocks of
/// `name`: each is a line of the module that is, or follows, a line holding
/// both `name` and `"export"`, with no `"//@stop"` line from that one up to
/// it.  A block stays open after the scan exactly when the last line lies
/// in one.
pub proof fn law_export_scan_keeps_block_lines(lines: Seq<Seq<char>>, name: Seq<char>)
    ensures
        forall|k: int|
            0 <= k < export_scan(lines, name).0.len() ==> exists|i: int|
                0 <= i < lines.len() && #[trigger] in_export_block(lines, name, i) && lines[i]
                    == #[trigger] export_scan(lines, name).0[k],
        export_scan(lines, name).1 == (lines.len() > 0 && in_export_block(
            lines,
            name,
            lines.len() - 1,
        )),
    decreases lines.len(),
{
    reveal_strlit("export");
    reveal_strlit("//@stop");
    if lines.len() > 0 {
        let p = lines.drop_last();
        let n = lines.len() - 1;
        law_export_scan_keeps_block_lines(p, name);
        let (out0, ev0) = export_scan(p, name);
        let out = export_scan(lines, name).0;
        let x = lines[n];
        assert(x == lines.last());
        if n > 0 {
            lemma_block_prefix(lines, name, n - 1);
        }
        // the block state after the last line
        if in_export_block(lines, name, n) {
            let o = choose|o: int|
                0 <= o <= n && #[trigger] opens_export(lines[o], name) && forall|m: int|
                    o <= m <= n ==> !has_substring(#[trigger] lines[m], "//@stop"@);
            assert(!has_substring(x, "//@stop"@));
            if o < n {
                assert(opens_export(p[o], name));
                assert forall|m: int| o <= m <= n - 1 implies !has_substring(#[trigger] p[m], "//@stop"@) by {
                    assert(p[m] == lines[m]);
                }
                assert(in_export_block(p, name, n - 1));
            }
        } else {
            if has_substring(x, name) && has_substring(x, "export"@) && !has_substring(x, "//@stop"@) {
                assert(opens_export(lines[n], name));
                assert(in_export_block(lines, name, n));
            }
            if ev0 && !has_substring(x, "//@stop"@) {
                let o = choose|o: int|
                    0 <= o <= n - 1 && #[trigger] opens_export(p[o], name) && forall|m: int|
                        o <= m <= n - 1 ==> !has_substring(#[trigger] p[m], "//@stop"@);
                assert(opens_export(lines[o], name));
                assert forall|m: int| o <= m <= n implies !has_substring(#[trigger] lines[m], "//@stop"@) by {
                    if m < n {
                        assert(p[m] == lines[m]);
                    }
                }
                assert(in_export_block(lines, name, n));
            }
        }
        // the kept lines
        assert forall|k: int| 0 <= k < out.len() implies exists|i: int|
            0 <= i < lines.len() && #[trigger] in_export_block(lines, name, i) && lines[i]
                == #[trigger] out[k] by {
            if k < out0.len() {
                assert(out[k] == out0[k]);
                let i = choose|i: int|
                    0 <= i < p.len() && #[trigger] in_export_block(p, name, i) && p[i]
                        == #[trigger] out0[k];
                lemma_block_prefix(lines, name, i);
                assert(p[i] == lines[i]);
            } else {
                assert(out[k] == x);
                assert(in_export_block(lines, name, n));
            }
        }
    }
}

/// The path of the first library module whose exported names hold `name`.
pub open spec fn find_module(dir: Seq<ImportView>, name: Seq<char>) -> Option<Seq<char>>
    decreases dir.len(),
{
    if dir.len() == 0 {
        None
    } else if dir[0].names.contains(name) {
        Some(dir[0].path)
    } else {
        find_module(dir.skip(1), name)
    }
}

/// The module found for a name exports that name.
pub proof fn law_find_module_sound(dir: Seq<ImportView>, name: Seq<char>)
    ensures
        find_module(dir, name) matches Some(p) ==> exists|k: int|
            0 <= k < dir.len() && (#[trigger] dir[k]).path == p && dir[k].names.contains(name),
        find_module(dir, name) is None ==> forall|k: int|
            0 <= k < dir.len() ==> !(#[trigger] dir[k]).names.contains(name),
    decreases dir.len(),
{
    if dir.len() > 0 {
        law_find_module_sound(dir.skip(1), name);
        if !dir[0].names.contains(name) {
            if find_module(dir, name) is Some {
                let k = choose|k: int|
                    0 <= k < dir.skip(1).len() && (#[trigger] dir.skip(1)[k]).path == find_module(
                        dir,
                        name,
                    )->0 && dir.skip(1)[k].names.contains(name);
                assert(dir[k + 1] == dir.skip(1)[k]);
            } else {
                assert forall|k: int| 0 <= k < dir.len() implies !(#[trigger] dir[k]).names.contains(
                    name,
                ) by {
                    if k > 0 {
                        assert(dir[k] == dir.skip(1)[k - 1]);
                    }
                }
            }
        }
    }
}

/// The views of a list of imports.
pub open spec fn import_views(v: Seq<Import>) -> Seq<ImportView> {
    v.map_values(|i: Import| i@)
}

/// Whether a line of a library module imports another library module.
pub open spec fn imports_dependency(line: Seq<char>) -> bool {
    has_substring(line, "import"@) && !has_substring(line, "core.js"@)
}

/// The names that the lines of a library module import from other modules,
/// in order, or the first error in reading them.
pub open spec fn dependency_names(lines: Seq<Seq<char>>) -> Result<Seq<Seq<char>>, ErrorView>
    decreases lines.len(),
{
    if lines.len() == 0 {
        Ok(Seq::empty())
    } else {
        match dependency_names(lines.drop_last()) {
            Err(e) => Err(e),
            Ok(acc) => if imports_dependency(lines.last()) {
                match names_outcome(lines.last()) {
                    Err(e) => Err(e),
                    Ok(ns) => Ok(acc + ns),
                }
            } else {
                Ok(acc)
            },
        }
    }
}

/// For each of `names` in turn: the module that exports it, its text among
/// `entries`, and the names it imports, gathered in order; or the first
/// error: a name that no module exports, a module that was not read, or a
/// line that cannot be read.
pub open spec fn collected_dependencies(
    dir: Seq<ImportView>,
    entries: Seq<crate::utils::FileEntry>,
    names: Seq<Seq<char>>,
) -> Result<Seq<Seq<char>>, ErrorView>
    decreases names.len(),
{
    if names.len() == 0 {
        Ok(Seq::empty())
    } else {
        match collected_dependencies(dir, entries, names.drop_last()) {
            Err(e) => Err(e),
            Ok(acc) => match find_module(dir, names.last()) {
                None => Err(ErrorView::ImportNotInCatrina),
                Some(path) => match lookup(entries, path) {
                    None => Err(ErrorView::FileNotRead(path)),
                    Some(text) => match dependency_names(lines_of(text)) {
                        Err(e) => Err(e),
                        Ok(ns) => Ok(acc + ns),
                    },
                },
            },
        }
    }
}

/// The import `imp` with the names that its modules import from other
/// modules added after its own, consecutive repeats dropped.
pub open spec fn recursive_outcome(
    dir: Seq<ImportView>,
    entries: Seq<crate::utils::FileEntry>,
    imp: ImportView,
) -> Result<ImportView, ErrorView> {
    match collected_dependencies(dir, entries, imp.names) {
        Err(e) => Err(e),
        Ok(extra) => Ok(
            ImportView { names: crate::css::dedup_seq(imp.names + extra), path: imp.path },
        ),
    }
}

/// The bundle `temp` after the exported code of each of `names` is appended,
/// each as its own block; or the first error.
pub open spec fn printed_exports(
    dir: Seq<ImportView>,
    entries: Seq<crate::utils::FileEntry>,
    names: Seq<Seq<char>>,
    temp: Seq<char>,
) -> Result<Seq<char>, ErrorView>
    decreases names.len(),
{
    if names.len() == 0 {
        Ok(temp)
    } else {
        match printed_exports(dir, entries, names.drop_last(), temp) {
            Err(e) => Err(e),
            Ok(acc) => match find_module(dir, names.last()) {
                None => Err(ErrorView::ImportNotInCatrina),
                Some(path) => match lookup(entries, path) {
                    None => Err(ErrorView::FileNotRead(path)),
                    Some(text) => Ok(
                        acc + appended_text(
                            LineFilter::All,
                            export_scan(lines_of(text), names.last()).0,
                        ),
                    ),
                },
            },
        }
    }
}

/// The outcome of `print_imports`: the import completed with its
/// dependencies, then the exported code of each of its names.
pub open spec fn print_outcome(
    dir: Seq<ImportView>,
    entries: Seq<crate::utils::FileEntry>,
    imp: ImportView,
    temp: Seq<char>,
) -> Result<Seq<char>, ErrorView> {
    match recursive_outcome(dir, entries, imp) {
        Err(e) => Err(e),
        Ok(full) => printed_exports(dir, entries, full.names, temp),
    }
}

/// Whether `target` is one of `names`.
pub fn names_contain(names: &Vec<String>, target: &String) -> (b: bool)
    ensures
        b == string_views(names@).contains(target@),
{
    let mut k: usize = 0;
    while k < names.len()
        invariant
            k <= names@.len(),
            forall|j: int| 0 <= j < k ==> names@[j]@ != target@,
        decreases names@.len() - k,
    {
        if names[k] == *target {
            assert(string_views(names@)[k as int] == target@);
            return true;
        }
        k = k + 1;
    }
    assert forall|j: int| 0 <= j < string_views(names@).len() implies string_views(names@)[j]
        != target@ by {
        assert(string_views(names@)[j] == names@[j]@);
    }
    false
}

/// A list of names without consecutive repeats, as `Vec::dedup` leaves it.
pub fn dedup_names(v: &Vec<String>) -> (d: Vec<String>)
    ensures
        string_views(d@) == crate::css::dedup_seq(string_views(v@)),
{
    let ghost s = string_views(v@);
    let mut d: Vec<String> = Vec::new();
    let mut i: usize = 0;
    while i < v.len()
        invariant
            i <= v@.len(),
            s == string_views(v@),
            string_views(d@) == crate::css::dedup_seq(s.take(i as int)),
        decreases v@.len() - i,
    {
        assert(s.take(i + 1).drop_last() =~= s.take(i as int));
        assert(s.take(i + 1).last() == v@[i as int]@);
        let ghost old_d = d@;
        if d.len() > 0 && d[d.len() - 1] == v[i] {
            assert(string_views(d@).last() == d@.last()@);
        } else {
            proof {
                if d@.len() > 0 {
                    assert(string_views(d@).last() == d@.last()@);
                }
            }
            let c = v[i].clone();
            d.push(c);
            assert(string_views(d@) =~= string_views(old_d).push(v@[i as int]@));
        }
        i = i + 1;
    }
    assert(s.take(v@.len() as int) =~= s);
    d
}

impl Parser {
    /// The lines of a module's text that make up the export of `name`: from
    /// a line holding `name` and `"export"` up to the next `"//@stop"` line,
    /// which is left out, for every such block.
    pub fn search_name_in_content(name: &str, content: &Vec<String>) -> (out: Vec<String>)
        ensures
            string_views(out@) == export_scan(string_views(content@), name@).0,
    {
        let ghost lines = string_views(content@);
        let mut ev = false;
        let mut out: Vec<String> = Vec::new();
        let mut i: usize = 0;
        proof {
            reveal_strlit("export");
            reveal_strlit("//@stop");
        }
        while i < content.len()
            invariant
                i <= content@.len(),
                lines == string_views(content@),
                export_scan(lines.take(i as int), name@) == (string_views(out@), ev),
            decreases content@.len() - i,
        {
            assert(lines.take(i + 1).drop_last() =~= lines.take(i as int));
            assert(lines.take(i + 1).last() == content@[i as int]@);
            let line = content[i].as_str();
            if (contains(line, name) && contains(line, "export")) || ev {
                ev = true;
                if contains(line, "//@stop") {
                    ev = false;
                } else {
                    let ghost before = out@;
                    let l = content[i].clone();
                    out.push(l);
                    assert(string_views(out@) =~= string_views(before).push(l@));
                }
            }
            i = i + 1;
        }
        assert(lines.take(content@.len() as int) =~= lines);
        out
    }

    /// The path of the first library module that exports `name`.
    pub fn search_path_in_directory(&self, name: &str) -> (p: Option<String>)
        ensures
            match p {
                Some(path) => find_module(import_views(self.directory()), name@) == Some(path@),
                None => find_module(import_views(self.directory()), name@) is None,
            },
    {
        let ghost dir = import_views(self.directory@);
        let target = name.to_owned();
        let mut i: usize = 0;
        assert(dir.skip(0) =~= dir);
        while i < self.directory.len()
            invariant
                i <= self.directory@.len(),
                dir == import_views(self.directory@),
                target@ == name@,
                find_module(dir, name@) == find_module(dir.skip(i as int), name@),
            decreases self.directory@.len() - i,
        {
            let ghost rest = dir.skip(i as int);
            assert(rest[0] == self.directory@[i as int]@);
            assert(rest.skip(1) =~= dir.skip(i + 1));
            if names_contain(&self.directory[i].names, &target) {
                return Some(self.directory[i].path_buf());
            }
            i = i + 1;
        }
        None
    }

    /// The lines of the module at `path` that make up the export of `name`.
    pub fn search_in_file(name: &str, path: &str, files: &FileSet) -> (r: Result<
        Vec<String>,
        CatrinaError,
    >)
        ensures
            names_view(r) == match lookup(files.entries@, path@) {
                Some(text) => Ok(export_scan(lines_of(text), name@).0),
                None => Err(ErrorView::FileNotRead(path@)),
            },
    {
        match files.read(path) {
            Some(text) => {
                let lines = file_to_vec_string(text.as_str());
                Ok(Parser::search_name_in_content(name, &lines))
            },
            None => Err(CatrinaError::FileNotRead(path.to_owned())),
        }
    }

    /// The names that the lines of a library module import from other
    /// modules.
    pub fn dependency_names_of(lines: &Vec<String>) -> (r: Result<Vec<String>, CatrinaError>)
        ensures
            names_view(r) == dependency_names(string_views(lines@)),
    {
        let ghost ls = string_views(lines@);
        let mut acc: Vec<String> = Vec::new();
        let mut i: usize = 0;
        proof {
            reveal_strlit("import");
            reveal_strlit("core.js");
        }
        assert(ls.take(0) =~= Seq::<Seq<char>>::empty());
        assert(string_views(acc@) =~= Seq::<Seq<char>>::empty());
        while i < lines.len()
            invariant
                i <= lines@.len(),
                ls == string_views(lines@),
                dependency_names(ls.take(i as int)) == Ok::<Seq<Seq<char>>, ErrorView>(
                    string_views(acc@),
                ),
            decreases lines@.len() - i,
        {
            assert(ls.take(i + 1).drop_last() =~= ls.take(i as int));
            assert(ls.take(i + 1).last() == lines@[i as int]@);
            let line = lines[i].as_str();
            if contains(line, "import") && !contains(line, "core.js") {
                match Parser::obtain_names(line) {
                    Ok(ns) => {
                        let ghost before = string_views(acc@);
                        let mut k: usize = 0;
                        while k < ns.len()
                            invariant
                                k <= ns@.len(),
                                string_views(acc@) == before + string_views(ns@).take(k as int),
                            decreases ns@.len() - k,
                        {
                            let ghost b2 = acc@;
                            let n = ns[k].clone();
                            acc.push(n);
                            assert(string_views(acc@) =~= string_views(b2).push(n@));
                            assert(string_views(ns@).take(k + 1) =~= string_views(ns@).take(
                                k as int,
                            ).push(ns@[k as int]@));
                            k = k + 1;
                        }
                        assert(string_views(ns@).take(ns@.len() as int) =~= string_views(ns@));
                    },
                    Err(e) => {
                        proof {
                            lemma_dependency_error(ls, i as int, e@);
                        }
                        return Err(e);
                    },
                }
            }
            i = i + 1;
        }
        assert(ls.take(lines@.len() as int) =~= ls);
        Ok(acc)
    }

    /// The import `imports` with the names that the modules of its names
    /// import from other modules added after its own, consecutive repeats
    /// dropped; the library modules are in `files`.
    pub fn recursive_imports(&self, imports: &Import, files: &FileSet) -> (r: Result<
        Import,
        CatrinaError,
    >)
        ensures
            import_view(r) == recursive_outcome(
                import_views(self.directory()),
                files.entries@,
                imports@,
            ),
    {
        let ghost dir = import_views(self.directory@);
        let ghost names = imports@.names;
        let mut all = crate::css::copy_import(imports);
        let mut i: usize = 0;
        assert(names.take(0) =~= Seq::<Seq<char>>::empty());
        assert(names + Seq::<Seq<char>>::empty() =~= names);
        while i < imports.names.len()
            invariant
                i <= names.len(),
                names == imports@.names,
                dir == import_views(self.directory@),
                all@.path == imports@.path,
                collected_dependencies(dir, files.entries@, names.take(i as int)) matches Ok(extra)
                    && all@.names == names + extra,
            decreases names.len() - i,
        {
            assert(names.take(i + 1).drop_last() =~= names.take(i as int));
            assert(names.take(i + 1).last() == imports.names@[i as int]@);
            let name = imports.names[i].as_str();
            let path = match self.search_path_in_directory(name) {
                Some(p) => p,
                None => {
                    proof {
                        lemma_collected_error(dir, files.entries@, names, i as int);
                    }
                    return Err(CatrinaError::ImportNotInCatrina);
                },
            };
            let text = match files.read(path.as_str()) {
                Some(t) => t,
                None => {
                    proof {
                        lemma_collected_error(dir, files.entries@, names, i as int);
                    }
                    return Err(CatrinaError::FileNotRead(path));
                },
            };
            let lines = file_to_vec_string(text.as_str());
            match Parser::dependency_names_of(&lines) {
                Ok(ns) => {
                    let ghost before = all@.names;
                    let mut k: usize = 0;
                    while k < ns.len()
                        invariant
                            k <= ns@.len(),
                            all@.path == imports@.path,
                            all@.names == before + string_views(ns@).take(k as int),
                        decreases ns@.len() - k,
                    {
                        let ghost b2 = all.names@;
                        let n = ns[k].clone();
                        all.names.push(n);
                        assert(string_views(all.names@) =~= string_views(b2).push(n@));
                        assert(string_views(ns@).take(k + 1) =~= string_views(ns@).take(
                            k as int,
                        ).push(ns@[k as int]@));
                        k = k + 1;
                    }
                    assert(string_views(ns@).take(ns@.len() as int) =~= string_views(ns@));
                },
                Err(e) => {
                    proof {
                        lemma_collected_error(dir, files.entries@, names, i as int);
                    }
                    return Err(e);
                },
            }
            i = i + 1;
        }
        assert(names.take(names.len() as int) =~= names);
        let deduped = dedup_names(&all.names);
        Ok(Import { names: deduped, path: all.path })
    }

    /// The bundle in progress `temp` after the exported code of every name
    /// that `imports` needs, its own and those its modules import, is
    /// appended, one block per name; the library modules are in `files`.
    pub fn print_imports(&self, imports: &Import, files: &FileSet, temp: &str) -> (r: Result<
        String,
        CatrinaError,
    >)
        ensures
            text_view(r) == print_outcome(
                import_views(self.directory()),
                files.entries@,
                imports@,
                temp@,
            ),
    {
        let ghost dir = import_views(self.directory@);
        let full = match self.recursive_imports(imports, files) {
            Ok(f) => f,
            Err(e) => {
                return Err(e);
            },
        };
        let ghost names = full@.names;
        let mut out = temp.to_owned();
        let mut i: usize = 0;
        assert(names.take(0) =~= Seq::<Seq<char>>::empty());
        while i < full.names.len()
            invariant
                i <= names.len(),
                names == full@.names,
                dir == import_views(self.directory@),
                recursive_outcome(dir, files.entries@, imports@) == Ok::<ImportView, ErrorView>(
                    full@,
                ),
                printed_exports(dir, files.entries@, names.take(i as int), temp@) == Ok::<
                    Seq<char>,
                    ErrorView,
                >(out@),
            decreases names.len() - i,
        {
            assert(names.take(i + 1).drop_last() =~= names.take(i as int));
            assert(names.take(i + 1).last() == full.names@[i as int]@);
            let name = full.names[i].as_str();
            let path = match self.search_path_in_directory(name) {
                Some(p) => p,
                None => {
                    proof {
                        lemma_printed_error(dir, files.entries@, names, temp@, i as int);
                    }
                    return Err(CatrinaError::ImportNotInCatrina);
                },
            };
            match Parser::search_in_file(name, path.as_str(), files) {
                Ok(found) => {
                    out = crate::utils::write_vec_string_in_file(out.as_str(), &found);
                },
                Err(e) => {
                    proof {
                        lemma_printed_error(dir, files.entries@, names, temp@, i as int);
                    }
                    return Err(e);
                },
            }
            i = i + 1;
        }
        assert(names.take(names.len() as int) =~= names);
        Ok(out)
    }
}

proof fn lemma_dependency_error(ls: Seq<Seq<char>>, i: int, e: ErrorView)
    requires
        0 <= i < ls.len(),
        dependency_names(ls.take(i)) is Ok,
        imports_dependency(ls[i]),
        names_outcome(ls[i]) == Err::<Seq<Seq<char>>, ErrorView>(e),
    ensures
        dependency_names(ls) == Err::<Seq<Seq<char>>, ErrorView>(e),
    decreases ls.len() - i,
{
    let t = ls.take(i + 1);
    assert(t.drop_last() =~= ls.take(i));
    lemma_dependency_stuck(ls, i + 1, e);
}

proof fn lemma_dependency_stuck(ls: Seq<Seq<char>>, j: int, e: ErrorView)
    requires
        1 <= j <= ls.len(),
        dependency_names(ls.take(j)) == Err::<Seq<Seq<char>>, ErrorView>(e),
    ensures
        dependency_names(ls) == Err::<Seq<Seq<char>>, ErrorView>(e),
    decreases ls.len() - j,
{
    if j == ls.len() {
        assert(ls.take(j) =~= ls);
    } else {
        assert(ls.take(j + 1).drop_last() =~= ls.take(j));
        lemma_dependency_stuck(ls, j + 1, e);
    }
}

proof fn lemma_collected_error(
    dir: Seq<ImportView>,
    entries: Seq<crate::utils::FileEntry>,
    names: Seq<Seq<char>>,
    i: int,
)
    requires
        0 <= i < names.len(),
        collected_dependencies(dir, entries, names.take(i + 1)) is Err,
    ensures
        collected_dependencies(dir, entries, names) == collected_dependencies(
            dir,
            entries,
            names.take(i + 1),
        ),
    decreases names.len() - i,
{
    if i + 1 == names.len() {
        assert(names.take(i + 1) =~= names);
    } else {
        assert(names.take(i + 2).drop_last() =~= names.take(i + 1));
        lemma_collected_error(dir, entries, names, i + 1);
    }
}

proof fn lemma_printed_error(
    dir: Seq<ImportView>,
    entries: Seq<crate::utils::FileEntry>,
    names: Seq<Seq<char>>,
    temp: Seq<char>,
    i: int,
)
    requires
        0 <= i < names.len(),
        printed_exports(dir, entries, names.take(i + 1), temp) is Err,
    ensures
        printed_exports(dir, entries, names, temp) == printed_exports(
            dir,
            entries,
            names.take(i + 1),
            temp,
        ),
    decreases names.len() - i,
{
    if i + 1 == names.len() {
        assert(names.take(i + 1) =~= names);
    } else {
        assert(names.take(i + 2).drop_last() =~= names.take(i + 1));
        lemma_printed_error(dir, entries, names, temp, i + 1);
    }
}

} // verus!
