//! Bundling of stylesheets: the `@import` rules of an entry file and of the
//! library stylesheets it pulls in, and the fonts that come with them.
use vstd::prelude::*;
use vstd::string::*;
use crate::config::Config;
use crate::errors::{CatrinaError, ErrorView};
use crate::import::{Import, ImportView};
use crate::paths::{file_name, file_name_of, join_path, push_path};
use crate::text::{
    chars_of, contains, has_substring, is_ascii, is_ascii_char, lacks_char, law_replace_absent, lemma_delete_all,
    lemma_replace_char_absent, lemma_replace_char_concat, lemma_replace_prefix, occurs_at, replace,
    replace_all, string_views,
};
use crate::utils::{
    appended_text, conditional_write_vec_string_in_file, file_to_vec_string, filter_keeps, keeps,
    lemma_selected_by_filter, lines_of, lookup, selected_text, FileSet, LineFilter,
};

verus! {

/// A font file of the library and the stylesheet that needs it.
#[derive(Clone, Debug)]
pub struct RelationCSSFont {
    /// The file name of the stylesheet that uses the font.
    pub name: String,
    /// The path of the font, relative to the library.
    pub path: String,
}

/// A font relation as plain text.
pub struct FontView {
    /// The file name of the stylesheet that uses the font.
    pub name: Seq<char>,
    /// The path of the font.
    pub path: Seq<char>,
}

impl View for RelationCSSFont {
    type V = FontView;

    open spec fn view(&self) -> FontView {
        FontView { name: self.name@, path: self.path@ }
    }
}

/// The views of a list of font relations.
pub open spec fn font_views(v: Seq<RelationCSSFont>) -> Seq<FontView> {
    v.map_values(|f: RelationCSSFont| f@)
}

/// The views of a list of imports.
pub open spec fn import_views(v: Seq<Import>) -> Seq<ImportView> {
    v.map_values(|i: Import| i@)
}

/// The stylesheet parser: the project configuration and the library's list
/// of which stylesheet needs which font.
#[derive(Debug)]
pub struct Parser {
    config: Config,
    fonts_relation: Vec<RelationCSSFont>,
}

/// The path that an `@import` line names: the line without the words
/// `"@import "`, the semicolons, the double quotes and the line feeds, taken
/// away in that order.
pub open spec fn extracted_import_path(line: Seq<char>) -> Seq<char> {
    replace_all(
        replace_all(
            replace_all(replace_all(line, "@import "@, Seq::empty()), ";"@, Seq::empty()),
            "\""@,
            Seq::empty(),
        ),
        "\n"@,
        Seq::empty(),
    )
}

/// The path that an `@import` line names holds no semicolon, double quote or
/// line feed.
pub proof fn lemma_extracted_path_clean(line: Seq<char>)
    ensures
        lacks_char(extracted_import_path(line), ';'),
        lacks_char(extracted_import_path(line), '"'),
        lacks_char(extracted_import_path(line), '\n'),
{
    reveal_strlit("@import ");
    reveal_strlit(";");
    reveal_strlit("\"");
    reveal_strlit("\n");
    let e = Seq::<char>::empty();
    let a = replace_all(line, "@import "@, e);
    let b = replace_all(a, ";"@, e);
    let c = replace_all(b, "\""@, e);
    lemma_delete_all(a, ";"@, ';');
    lemma_delete_all(b, "\""@, ';');
    lemma_delete_all(b, "\""@, '"');
    lemma_delete_all(c, "\n"@, ';');
    lemma_delete_all(c, "\n"@, '"');
    lemma_delete_all(c, "\n"@, '\n');
}

/// The path of the `@import` rule written for a path `x` that holds no
/// semicolon, double quote or line feed, and not the words `"@import "`, is
/// `x` itself: `extract_import` reads back the path that such a rule names.
pub proof fn law_extract_import_round_trip(x: Seq<char>)
    requires
        lacks_char(x, ';'),
        lacks_char(x, '"'),
        lacks_char(x, '\n'),
        !has_substring(x, "@import "@),
    ensures
        extracted_import_path("@import \""@ + x + "\";\n"@) == x,
{
    reveal_strlit("@import ");
    reveal_strlit("@import \"");
    reveal_strlit("\";\n");
    reveal_strlit(";");
    reveal_strlit("\"");
    reveal_strlit("\n");
    let e = Seq::<char>::empty();
    let kw = "@import "@;
    let q = seq!['"'];
    let semi = seq![';'];
    let nl = seq!['\n'];
    let rest = q + x + q + semi + nl;
    assert("@import \""@ + x + "\";\n"@ =~= kw + rest);
    lemma_replace_prefix(kw, rest, e);
    assert(!has_substring(rest, kw)) by {
        if has_substring(rest, kw) {
            let i = choose|i: int| occurs_at(rest, kw, i);
            assert(rest.subrange(i, i + kw.len())[0] == rest[i]);
            assert(rest[0] == '"');
            if i + 8 <= x.len() + 1 {
                assert(x.subrange(i - 1, i + 7) =~= rest.subrange(i, i + 8));
                assert(occurs_at(x, kw, i - 1));
            } else if i <= x.len() + 1 {
                let k = x.len() + 1 - i;
                assert(rest.subrange(i, i + 8)[k] == rest[x.len() as int + 1]);
                assert(rest[x.len() as int + 1] == '"');
            } else {
                assert(i + 8 <= rest.len());
            }
        }
    }
    law_replace_absent(rest, kw, e);
    assert(replace_all("@import \""@ + x + "\";\n"@, kw, e) == rest);
    // the semicolon
    assert(lacks_char(q, ';'));
    assert(lacks_char(nl, ';'));
    lemma_replace_char_concat(q + x + q + semi, nl, ';', e);
    lemma_replace_char_concat(q + x + q, semi, ';', e);
    lemma_replace_char_concat(q + x, q, ';', e);
    lemma_replace_char_concat(q, x, ';', e);
    lemma_replace_char_absent(q, ';', e);
    lemma_replace_char_absent(x, ';', e);
    lemma_replace_char_absent(nl, ';', e);
    lemma_replace_prefix(semi, e, e);
    assert(semi + e =~= semi);
    assert(replace_all(e, semi, e) =~= e);
    let r2 = q + x + q + nl;
    assert(";"@ =~= semi);
    assert(replace_all(semi, semi, e) == e);
    assert(replace_all(q + x, semi, e) == q + x);
    assert(replace_all(q + x + q, semi, e) =~= q + x + q);
    assert(replace_all(q + x + q + semi, semi, e) =~= q + x + q);
    assert(replace_all(rest, semi, e) =~= r2);
    // the double quotes
    assert(lacks_char(nl, '"'));
    lemma_replace_char_concat(q + x + q, nl, '"', e);
    lemma_replace_char_concat(q + x, q, '"', e);
    lemma_replace_char_concat(q, x, '"', e);
    lemma_replace_char_absent(x, '"', e);
    lemma_replace_char_absent(nl, '"', e);
    lemma_replace_prefix(q, e, e);
    assert(q + e =~= q);
    assert(replace_all(e, q, e) =~= e);
    let r3 = x + nl;
    assert("\""@ =~= q);
    assert(replace_all(q, q, e) == e);
    assert(replace_all(q + x, q, e) =~= x);
    assert(replace_all(q + x + q, q, e) =~= x);
    assert(replace_all(r2, q, e) =~= r3);
    // the line feed
    lemma_replace_char_concat(x, nl, '\n', e);
    lemma_replace_char_absent(x, '\n', e);
    lemma_replace_prefix(nl, e, e);
    assert(nl + e =~= nl);
    assert(replace_all(e, nl, e) =~= e);
    assert("\n"@ =~= nl);
    assert(replace_all(nl, nl, e) == e);
    assert(replace_all(r3, nl, e) =~= x);
}

/// Dropping consecutive repeats leaves no two neighbours equal.
pub proof fn law_dedup_no_adjacent<A>(s: Seq<A>)
    ensures
        forall|i: int|
            0 <= i < dedup_seq(s).len() - 1 ==> #[trigger] dedup_seq(s)[i] != dedup_seq(s)[i + 1],
    decreases s.len(),
{
    if s.len() > 0 {
        law_dedup_no_adjacent(s.drop_last());
        let d = dedup_seq(s.drop_last());
        if !(d.len() > 0 && d.last() == s.last()) {
            let e = d.push(s.last());
            assert forall|i: int| 0 <= i < e.len() - 1 implies #[trigger] e[i] != e[i + 1] by {
                if i == e.len() - 2 {
                    assert(e[i] == d.last());
                } else {
                    assert(e[i] == d[i] && e[i + 1] == d[i + 1]);
                }
            }
        }
    }
}

/// The fonts of `fonts` that the stylesheet named `name` needs, in order,
/// each with its path resolved inside the library at `lib`.
pub open spec fn fonts_for(fonts: Seq<FontView>, name: Seq<char>, lib: Seq<char>) -> Seq<FontView>
    decreases fonts.len(),
{
    if fonts.len() == 0 {
        Seq::empty()
    } else {
        let prev = fonts_for(fonts.drop_last(), name, lib);
        let f = fonts.last();
        if f.name == name {
            prev.push(
                FontView {
                    name: f.name,
                    path: push_path(lib, replace_all(f.path, "./lib/"@, Seq::empty())),
                },
            )
        } else {
            prev
        }
    }
}

/// The entries of a font list that belong to the stylesheet named `name`,
/// in order.
pub open spec fn named_fonts(fonts: Seq<FontView>, name: Seq<char>) -> Seq<FontView> {
    fonts.filter(has_font_name(name))
}

/// Whether a font entry belongs to the stylesheet named `name`.
pub open spec fn has_font_name(name: Seq<char>) -> spec_fn(FontView) -> bool {
    |f: FontView| f.name == name
}

/// The fonts planned for the stylesheet named `name` are all the entries of
/// the library's font list with that name, in order and none left out, each
/// with its path freed of `"./lib/"` and put inside the library at `lib`.
pub proof fn law_fonts_for_every_named_entry(fonts: Seq<FontView>, name: Seq<char>, lib: Seq<char>)
    ensures
        fonts_for(fonts, name, lib).len() == named_fonts(fonts, name).len(),
        forall|k: int|
            0 <= k < fonts_for(fonts, name, lib).len() ==> #[trigger] fonts_for(fonts, name, lib)[k]
                == (FontView {
                name: named_fonts(fonts, name)[k].name,
                path: push_path(
                    lib,
                    replace_all(named_fonts(fonts, name)[k].path, "./lib/"@, Seq::empty()),
                ),
            }),
    decreases fonts.len(),
{
    if fonts.len() > 0 {
        let p = fonts.drop_last();
        law_fonts_for_every_named_entry(p, name, lib);
        reveal(Seq::filter);
        assert(named_fonts(fonts, name) == if fonts.last().name == name {
            named_fonts(p, name).push(fonts.last())
        } else {
            named_fonts(p, name)
        });
        let a = fonts_for(fonts, name, lib);
        let b = fonts_for(p, name, lib);
        assert forall|k: int| 0 <= k < a.len() implies #[trigger] a[k] == (FontView {
            name: named_fonts(fonts, name)[k].name,
            path: push_path(
                lib,
                replace_all(named_fonts(fonts, name)[k].path, "./lib/"@, Seq::empty()),
            ),
        }) by {
            if k < b.len() {
                assert(a[k] == b[k]);
                assert(named_fonts(fonts, name)[k] == named_fonts(p, name)[k]);
            }
        }
    }
}

/// The fonts to copy for `imports`, in order, and whether every import had a
/// file name: the plan stops at the first import without one.
pub open spec fn font_plan(imports: Seq<ImportView>, fonts: Seq<FontView>, lib: Seq<char>) -> (
    Seq<FontView>,
    bool,
)
    decreases imports.len(),
{
    if imports.len() == 0 {
        (Seq::empty(), true)
    } else {
        let (prev, ok) = font_plan(imports.drop_last(), fonts, lib);
        if !ok {
            (prev, false)
        } else {
            match file_name_of(imports.last().path) {
                Some(n) => (prev + fonts_for(fonts, n, lib), true),
                None => (prev, false),
            }
        }
    }
}

proof fn lemma_font_plan_stuck(imports: Seq<ImportView>, fonts: Seq<FontView>, lib: Seq<char>, j: int)
    requires
        1 <= j <= imports.len(),
        font_plan(imports.take(j), fonts, lib).1 == false,
    ensures
        font_plan(imports, fonts, lib) == font_plan(imports.take(j), fonts, lib),
    decreases imports.len() - j,
{
    if j == imports.len() {
        assert(imports.take(j) =~= imports);
    } else {
        assert(imports.take(j + 1).drop_last() =~= imports.take(j));
        lemma_font_plan_stuck(imports, fonts, lib, j + 1);
    }
}

/// Whether a line at or before the end of `lines` holds the colour marker
/// `/*Colors*/` after which the library's `@import` rules are looked at.
pub open spec fn marker_seen(lines: Seq<Seq<char>>) -> bool
    decreases lines.len(),
{
    if lines.len() == 0 {
        false
    } else {
        marker_seen(lines.drop_last()) || has_substring(lines.last(), "/*Colors*/"@)
    }
}

/// How many of `paths` differ from `p`.
pub open spec fn count_other(paths: Seq<Seq<char>>, p: Seq<char>) -> nat
    decreases paths.len(),
{
    if paths.len() == 0 {
        0
    } else {
        count_other(paths.drop_last(), p) + if paths.last() != p {
            1nat
        } else {
            0nat
        }
    }
}

/// `n` copies of `x`.
pub open spec fn repeat(x: Seq<char>, n: nat) -> Seq<Seq<char>> {
    Seq::new(n, |_k: int| x)
}

/// Before duplicates are dropped: the indices of the `@import` lines from
/// the colour marker on, and the paths of the stylesheets to copy in, each
/// repeated once for every entry of `paths` (the entry file's imports) that
/// names another file.  Rules for `core.css` are dropped but not copied.
pub open spec fn raw_import_plan(lines: Seq<Seq<char>>, paths: Seq<Seq<char>>) -> (
    Seq<int>,
    Seq<Seq<char>>,
)
    decreases lines.len(),
{
    if lines.len() == 0 {
        (Seq::empty(), Seq::empty())
    } else {
        let (skip, imps) = raw_import_plan(lines.drop_last(), paths);
        let line = lines.last();
        if marker_seen(lines) && has_substring(line, "@import"@) {
            let p = extracted_import_path(line);
            let imps2 = if !has_substring(line, "core.css"@) {
                imps + repeat(p, count_other(paths, p))
            } else {
                imps
            };
            (skip.push(lines.len() - 1), imps2)
        } else {
            (skip, imps)
        }
    }
}

/// `s` without the elements that equal the one before them, as `Vec::dedup`
/// leaves it.
pub open spec fn dedup_seq<A>(s: Seq<A>) -> Seq<A>
    decreases s.len(),
{
    if s.len() == 0 {
        s
    } else {
        let d = dedup_seq(s.drop_last());
        if d.len() > 0 && d.last() == s.last() {
            d
        } else {
            d.push(s.last())
        }
    }
}

/// The lines of `content`, with those at the indices of `skip` replaced by a
/// bare line feed.
pub open spec fn blanked(content: Seq<Seq<char>>, skip: Seq<int>) -> Seq<Seq<char>> {
    Seq::new(content.len(), |i: int| if skip.contains(i) { "\n"@ } else { content[i] })
}

/// The file after it is rewritten with the lines at `skip` blanked and a
/// closing line feed; an empty `content` leaves it as it is.
pub open spec fn excluded_text(existing: Seq<char>, content: Seq<Seq<char>>, skip: Seq<int>) -> Seq<
    char,
> {
    if content.len() == 0 {
        existing
    } else {
        blanked(content, skip).flatten_alt().push('\n')
    }
}

/// The file that an imported library stylesheet is read from: for a path
/// that climbs with `"../"`, the path without those steps inside the
/// library; otherwise the empty path, which names no file.
pub open spec fn import_location(lib: Seq<char>, path: Seq<char>) -> Seq<char> {
    if has_substring(path, "../"@) {
        push_path(lib, replace_all(path, "../"@, Seq::empty()))
    } else {
        Seq::empty()
    }
}

/// The text of the library stylesheet that an `@import` path names, if it
/// was read: none for a path that does not climb with `"../"`, for then the
/// empty path is read, which names no file.
pub open spec fn sheet_text(
    lib: Seq<char>,
    entries: Seq<crate::utils::FileEntry>,
    path: Seq<char>,
) -> Option<Seq<char>> {
    if has_substring(path, "../"@) {
        lookup(entries, import_location(lib, path))
    } else {
        None
    }
}

/// The uses of a `usize` list as integers.
pub open spec fn usize_ints(s: Seq<usize>) -> Seq<int> {
    s.map_values(|x: usize| x as int)
}

/// The paths of a list of imports.
pub open spec fn import_paths(s: Seq<ImportView>) -> Seq<Seq<char>> {
    s.map_values(|i: ImportView| i.path)
}

/// A copy of an import.
pub fn copy_import(i: &Import) -> (c: Import)
    ensures
        c@ == i@,
{
    let mut names: Vec<String> = Vec::new();
    let mut k: usize = 0;
    while k < i.names.len()
        invariant
            k <= i.names@.len(),
            string_views(names@) == string_views(i.names@).take(k as int),
        decreases i.names@.len() - k,
    {
        let ghost before = names@;
        let n = i.names[k].clone();
        names.push(n);
        assert(string_views(names@) =~= string_views(before).push(n@));
        assert(string_views(i.names@).take(k + 1) =~= string_views(i.names@).take(k as int).push(
            i.names@[k as int]@,
        ));
        k = k + 1;
    }
    assert(string_views(i.names@).take(i.names@.len() as int) =~= string_views(i.names@));
    Import { names, path: i.path.clone() }
}

impl Parser {
    /// The parser for a project, with the library's font list as read from
    /// its `css-fonts-relation.json`.
    pub fn new(config: Config, fonts_relation: Vec<RelationCSSFont>) -> (p: Parser)
        ensures
            p.config() == config,
            p.fonts_relation() == fonts_relation@,
    {
        Parser { config, fonts_relation }
    }

    /// The configuration that the parser works for.
    pub closed spec fn config(&self) -> Config {
        self.config
    }

    /// The library's font list.
    pub closed spec fn fonts_relation(&self) -> Seq<RelationCSSFont> {
        self.fonts_relation@
    }

    /// The configuration that the parser works for.
    pub fn get_config(&self) -> (c: &Config)
        ensures
            *c == self.config(),
    {
        &self.config
    }

    /// The import that an `@import` line names: no names, and the path the
    /// line gives.
    pub fn extract_import(line: &str) -> (i: Import)
        ensures
            i@.names.len() == 0,
            i@.path == extracted_import_path(line@),
            lacks_char(i@.path, ';'),
            lacks_char(i@.path, '"'),
            lacks_char(i@.path, '\n'),
    {
        proof {
            lemma_extracted_path_clean(line@);
        }
        proof {
            reveal_strlit("@import ");
            reveal_strlit(";");
            reveal_strlit("\"");
            reveal_strlit("\n");
            reveal_strlit("");
        }
        assert(""@ =~= Seq::<char>::empty());
        let a = replace(line, "@import ", "");
        let b = replace(a.as_str(), ";", "");
        let c = replace(b.as_str(), "\"", "");
        let d = replace(c.as_str(), "\n", "");
        let mut i = Import::new();
        i.path = d;
        i
    }

    /// The library fonts that the imported stylesheets need, with their paths
    /// inside the library, in the order in which they are copied into the
    /// deploy directory; and an error if an import has no file name, at which
    /// point the copying stops.
    pub fn copy_fonts(&self, imports: &Vec<Import>) -> (r: (
        Vec<RelationCSSFont>,
        Result<(), CatrinaError>,
    ))
        ensures
            font_views(r.0@) == font_plan(
                import_views(imports@),
                font_views(self.fonts_relation()),
                self.config().location_lib@,
            ).0,
            r.1 is Ok == font_plan(
                import_views(imports@),
                font_views(self.fonts_relation()),
                self.config().location_lib@,
            ).1,
            r.1 matches Err(e) ==> e is NoFileName,
    {
        let ghost fonts = font_views(self.fonts_relation@);
        let ghost lib = self.config.location_lib@;
        let ghost ims = import_views(imports@);
        let mut out: Vec<RelationCSSFont> = Vec::new();
        let mut i: usize = 0;
        while i < imports.len()
            invariant
                i <= imports@.len(),
                fonts == font_views(self.fonts_relation@),
                lib == self.config.location_lib@,
                ims == import_views(imports@),
                font_plan(ims.take(i as int), fonts, lib) == (font_views(out@), true),
            decreases imports@.len() - i,
        {
            assert(ims.take(i + 1).drop_last() =~= ims.take(i as int));
            assert(ims.take(i + 1).last() == imports@[i as int]@);
            let name = match file_name(imports[i].path.as_str()) {
                Some(n) => n,
                None => {
                    proof {
                        lemma_font_plan_stuck(ims, fonts, lib, i as int + 1);
                    }
                    return (out, Err(CatrinaError::NoFileName));
                },
            };
            let ghost out0 = font_views(out@);
            let mut k: usize = 0;
            while k < self.fonts_relation.len()
                invariant
                    k <= self.fonts_relation@.len(),
                    fonts == font_views(self.fonts_relation@),
                    lib == self.config.location_lib@,
                    font_views(out@) == out0 + fonts_for(fonts.take(k as int), name@, lib),
                decreases self.fonts_relation@.len() - k,
            {
                assert(fonts.take(k + 1).drop_last() =~= fonts.take(k as int));
                assert(fonts.take(k + 1).last() == self.fonts_relation@[k as int]@);
                let f = &self.fonts_relation[k];
                if f.name == name {
                    proof {
                        reveal_strlit("./lib/");
                        reveal_strlit("");
                    }
                    assert(""@ =~= Seq::<char>::empty());
                    let inner = replace(f.path.as_str(), "./lib/", "");
                    let resolved = join_path(self.config.location_lib.as_str(), inner.as_str());
                    let fname = f.name.clone();
                    assert(fname@ == f.name@);
                    let font = RelationCSSFont { name: fname, path: resolved };
                    let ghost before = out@;
                    out.push(font);
                    assert(font_views(out@) =~= font_views(before).push(font@));
                    assert(out0 + fonts_for(fonts.take(k + 1), name@, lib) =~= (out0 + fonts_for(
                        fonts.take(k as int),
                        name@,
                        lib,
                    )).push(font@));
                }
                k = k + 1;
            }
            assert(fonts.take(self.fonts_relation@.len() as int) =~= fonts);
            i = i + 1;
        }
        assert(ims.take(imports@.len() as int) =~= ims);
        (out, Ok(()))
    }

    /// Which lines of the bundle in progress hold library `@import` rules,
    /// and which library stylesheets those rules bring in: the lines from
    /// the one holding `/*Colors*/` on, that hold `@import`; and for each of
    /// them that is not about `core.css`, its path once for every entry of
    /// `imports_list` with another path, consecutive repeats then dropped.
    pub fn plan_recursive_imports(content: &Vec<String>, imports_list: &Vec<Import>) -> (r: (
        Vec<usize>,
        Vec<Import>,
    ))
        ensures
            usize_ints(r.0@) == dedup_seq(
                raw_import_plan(
                    string_views(content@),
                    import_paths(import_views(imports_list@)),
                ).0,
            ),
            import_paths(import_views(r.1@)) == dedup_seq(
                raw_import_plan(
                    string_views(content@),
                    import_paths(import_views(imports_list@)),
                ).1,
            ),
            forall|k: int| 0 <= k < r.1@.len() ==> (#[trigger] r.1@[k])@.names.len() == 0,
            forall|k: int| 0 <= k < r.0@.len() ==> (#[trigger] r.0@[k]) < content@.len(),
    {
        let ghost lines = string_views(content@);
        let ghost paths = import_paths(import_views(imports_list@));
        let mut skip: Vec<usize> = Vec::new();
        let mut imps: Vec<Import> = Vec::new();
        let mut next = false;
        let mut i: usize = 0;
        proof {
            reveal_strlit("/*Colors*/");
            reveal_strlit("@import");
            reveal_strlit("core.css");
        }
        while i < content.len()
            invariant
                i <= content@.len(),
                lines == string_views(content@),
                paths == import_paths(import_views(imports_list@)),
                next == marker_seen(lines.take(i as int)),
                usize_ints(skip@) == raw_import_plan(lines.take(i as int), paths).0,
                import_paths(import_views(imps@)) == raw_import_plan(lines.take(i as int), paths).1,
                forall|k: int| 0 <= k < imps@.len() ==> (#[trigger] imps@[k])@.names.len() == 0,
                forall|k: int| 0 <= k < skip@.len() ==> (#[trigger] skip@[k]) < i,
            decreases content@.len() - i,
        {
            let line = content[i].as_str();
            let ghost prefix = lines.take(i + 1);
            assert(prefix.drop_last() =~= lines.take(i as int));
            assert(prefix.last() == line@);
            let v = contains(line, "/*Colors*/");
            if v {
                next = true;
            }
            if next && contains(line, "@import") {
                if !contains(line, "core.css") {
                    let import = Parser::extract_import(line);
                    let ghost before = import_paths(import_views(imps@));
                    let mut k: usize = 0;
                    while k < imports_list.len()
                        invariant
                            k <= imports_list@.len(),
                            paths == import_paths(import_views(imports_list@)),
                            import_paths(import_views(imps@)) == before + repeat(
                                import@.path,
                                count_other(paths.take(k as int), import@.path),
                            ),
                            import@.names.len() == 0,
                            forall|j: int|
                                0 <= j < imps@.len() ==> (#[trigger] imps@[j])@.names.len() == 0,
                        decreases imports_list@.len() - k,
                    {
                        assert(paths.take(k + 1).drop_last() =~= paths.take(k as int));
                        assert(paths.take(k + 1).last() == imports_list@[k as int]@.path);
                        if imports_list[k].path != import.path {
                            let ghost old_imps = imps@;
                            let c = copy_import(&import);
                            imps.push(c);
                            assert(import_paths(import_views(imps@)) =~= import_paths(
                                import_views(old_imps),
                            ).push(import@.path));
                            assert(before + repeat(
                                import@.path,
                                count_other(paths.take(k + 1), import@.path),
                            ) =~= (before + repeat(
                                import@.path,
                                count_other(paths.take(k as int), import@.path),
                            )).push(import@.path));
                        } else {
                            assert(count_other(paths.take(k + 1), import@.path) == count_other(
                                paths.take(k as int),
                                import@.path,
                            ));
                        }
                        k = k + 1;
                    }
                    assert(paths.take(imports_list@.len() as int) =~= paths);
                }
                let ghost old_skip = skip@;
                skip.push(i);
                assert(usize_ints(skip@) =~= usize_ints(old_skip).push(i as int));
            }
            i = i + 1;
        }
        assert(lines.take(content@.len() as int) =~= lines);
        let skip_d = dedup_indices(&skip);
        let imps_d = dedup_imports(&imps);
        (skip_d, imps_d)
    }

    /// The file `existing` rewritten from `content` with the lines at
    /// `skip_lines` replaced by bare line feeds, followed by a line feed; an
    /// empty `content` leaves the file as it is.
    pub fn write_file_exclude_lines(
        skip_lines: &Vec<usize>,
        content: &Vec<String>,
        existing: &str,
    ) -> (out: String)
        requires
            content@.len() > 0 ==> forall|k: int|
                0 <= k < skip_lines@.len() ==> (#[trigger] skip_lines@[k]) < content@.len(),
        ensures
            out@ == excluded_text(existing@, string_views(content@), usize_ints(skip_lines@)),
    {
        if content.len() == 0 {
            return existing.to_owned();
        }
        let ghost lines = string_views(content@);
        let ghost skip = usize_ints(skip_lines@);
        let ghost b = blanked(lines, skip);
        let mut out: Vec<char> = Vec::new();
        let mut i: usize = 0;
        proof {
            reveal_strlit("\n");
        }
        assert(b.take(0).flatten_alt() =~= Seq::<char>::empty());
        while i < content.len()
            invariant
                i <= content@.len(),
                lines == string_views(content@),
                skip == usize_ints(skip_lines@),
                b == blanked(lines, skip),
                out@ == b.take(i as int).flatten_alt(),
            decreases content@.len() - i,
        {
            let mut found = false;
            let mut k: usize = 0;
            while k < skip_lines.len()
                invariant
                    k <= skip_lines@.len(),
                    skip == usize_ints(skip_lines@),
                    found == exists|j: int| 0 <= j < k && skip_lines@[j] == i,
                decreases skip_lines@.len() - k,
            {
                if skip_lines[k] == i {
                    found = true;
                }
                k = k + 1;
            }
            proof {
                if found {
                    let j = choose|j: int| 0 <= j < skip_lines@.len() && skip_lines@[j] == i;
                    assert(skip[j] == i as int);
                } else {
                    assert forall|j: int| 0 <= j < skip.len() implies skip[j] != i as int by {
                        assert(skip[j] == skip_lines@[j] as int);
                    }
                }
            }
            let piece = if found {
                chars_of("\n")
            } else {
                chars_of(content[i].as_str())
            };
            assert(piece@ == b[i as int]);
            let ghost out0 = out@;
            let mut j: usize = 0;
            while j < piece.len()
                invariant
                    j <= piece@.len(),
                    out@ == out0 + piece@.take(j as int),
                decreases piece@.len() - j,
            {
                out.push(piece[j]);
                j = j + 1;
            }
            assert(piece@.take(piece@.len() as int) =~= piece@);
            assert(b.take(i + 1).drop_last() =~= b.take(i as int));
            i = i + 1;
        }
        assert(b.take(content@.len() as int) =~= b);
        out.push('\n');
        crate::text::string_of(out.as_slice())
    }

    /// The file that an imported library stylesheet is read from.
    pub fn import_file_location(&self, import: &Import) -> (p: String)
        ensures
            p@ == import_location(self.config().location_lib@, import@.path),
    {
        proof {
            reveal_strlit("../");
            reveal_strlit("");
        }
        assert(""@ =~= Seq::<char>::empty());
        if contains(import.path.as_str(), "../") {
            let raw = replace(import.path.as_str(), "../", "");
            join_path(self.config.location_lib.as_str(), raw.as_str())
        } else {
            String::new()
        }
    }

    /// The bundle in progress `temp` after the imported library stylesheet
    /// is appended to it without its own `@import` lines; an error if that
    /// stylesheet was not read, and always for a path that does not climb
    /// with `"../"`, whose file is looked for at the empty path.
    pub fn print_import_file_no_imports(&self, import: &Import, files: &FileSet, temp: &str) -> (r:
        Result<String, CatrinaError>)
        ensures
            match sheet_text(self.config().location_lib@, files.entries@, import@.path) {
                Some(text) => r matches Ok(out) && out@ == temp@ + appended_text(
                    LineFilter::WithoutImports,
                    lines_of(text),
                ),
                None => r matches Err(e) && e matches CatrinaError::FileNotRead(p) && p@
                    == import_location(self.config().location_lib@, import@.path),
            },
    {
        let location = self.import_file_location(import);
        proof {
            reveal_strlit("../");
        }
        if !contains(import.path.as_str(), "../") {
            return Err(CatrinaError::FileNotRead(location));
        }
        match files.read(location.as_str()) {
            Some(text) => {
                let lines = file_to_vec_string(text.as_str());
                let no_import = |_i: usize, line: &String| -> (b: bool)
                    ensures
                        b == keeps(LineFilter::WithoutImports, line@),
                    {
                        let v = chars_of(line.as_str());
                        filter_keeps(&LineFilter::WithoutImports, v.as_slice())
                    };
                let out = conditional_write_vec_string_in_file(temp, &lines, no_import);
                proof {
                    let ls = string_views(lines@);
                    let keep = choose|keep: Seq<bool>|
                        {
                            &&& keep.len() == lines@.len()
                            &&& forall|i: int|
                                0 <= i < lines@.len() ==> call_ensures(
                                    no_import,
                                    (i as usize, &lines@[i]),
                                    #[trigger] keep[i],
                                )
                            &&& out@ == temp@ + selected_text(ls, keep)
                        };
                    assert forall|i: int| 0 <= i < ls.len() implies #[trigger] keep[i] == keeps(
                        LineFilter::WithoutImports,
                        ls[i],
                    ) by {
                        assert(call_ensures(no_import, (i as usize, &lines@[i]), keep[i]));
                    }
                    lemma_selected_by_filter(LineFilter::WithoutImports, ls, keep);
                }
                Ok(out)
            },
            None => Err(CatrinaError::FileNotRead(location)),
        }
    }

    /// The library stylesheets, minified or not, are in `files`: the bundle
    /// in progress `temp` after its library `@import` lines are blanked and
    /// the stylesheets they bring in are appended one after the other without
    /// their own `@import` lines; `imports_list` holds the entry file's own
    /// imports.  An error if one of those stylesheets was not read.
    pub fn recursive_imports(&self, temp: &str, imports_list: &Vec<Import>, files: &FileSet) -> (r:
        Result<String, CatrinaError>)
        ensures
            ({
                let lines = lines_of(temp@);
                let paths = import_paths(import_views(imports_list@));
                let plan = raw_import_plan(lines, paths);
                recursive_result(
                    self.config().location_lib@,
                    files.entries@,
                    excluded_text(temp@, lines, dedup_seq(plan.0)),
                    dedup_seq(plan.1),
                    r,
                )
            }),
    {
        let content = file_to_vec_string(temp);
        let (skip, new_imports) = Parser::plan_recursive_imports(&content, imports_list);
        let mut out = Parser::write_file_exclude_lines(&skip, &content, temp);
        let ghost start = out@;
        let ghost paths = import_paths(import_views(new_imports@));
        let mut i: usize = 0;
        assert(paths.take(0) =~= Seq::<Seq<char>>::empty());
        while i < new_imports.len()
            invariant
                i <= new_imports@.len(),
                paths == import_paths(import_views(new_imports@)),
                paths == dedup_seq(
                    raw_import_plan(lines_of(temp@), import_paths(import_views(imports_list@))).1,
                ),
                start == excluded_text(
                    temp@,
                    lines_of(temp@),
                    dedup_seq(
                        raw_import_plan(lines_of(temp@), import_paths(import_views(imports_list@))).0,
                    ),
                ),
                appended_all(self.config.location_lib@, files.entries@, start, paths.take(i as int))
                    == Some(out@),
            decreases new_imports@.len() - i,
        {
            assert(paths.take(i + 1).drop_last() =~= paths.take(i as int));
            assert(paths.take(i + 1).last() == new_imports@[i as int]@.path);
            match self.print_import_file_no_imports(&new_imports[i], files, out.as_str()) {
                Ok(next) => {
                    out = next;
                },
                Err(e) => {
                    assert(paths[i as int] == new_imports@[i as int]@.path);
                    assert(sheet_text(self.config.location_lib@, files.entries@, paths[i as int]) is None);
                    proof {
                        lemma_appended_all_none(
                            self.config.location_lib@,
                            files.entries@,
                            start,
                            paths,
                            i as int,
                        );
                    }
                    return Err(e);
                },
            }
            i = i + 1;
        }
        assert(paths.take(new_imports@.len() as int) =~= paths);
        Ok(out)
    }

    /// The bundle in progress `temp` after the files of the entry file's
    /// library imports are appended to it, each followed by a line feed: the
    /// first is read at its path inside `cwd`, the later ones at their own
    /// path.  An error if one of them was not read.  Once they are all
    /// appended, the fonts they need are copied into the deploy directory:
    /// the second part of the result is the fonts to copy, in order, as
    /// `copy_fonts` gives them, and an import without a file name stops the
    /// copying with an error.
    pub fn print_imports(&self, imports: &Vec<Import>, files: &FileSet, cwd: &str, temp: &str) -> (r:
        (Result<String, CatrinaError>, Vec<RelationCSSFont>))
        ensures
            ({
                let paths = import_paths(import_views(imports@));
                let plan = font_plan(
                    import_views(imports@),
                    font_views(self.fonts_relation()),
                    self.config().location_lib@,
                );
                match printed_all(files.entries@, cwd@, paths, temp@) {
                    None => printed_result(files.entries@, cwd@, paths, temp@, r.0) && r.1@.len()
                        == 0,
                    Some(text) => {
                        &&& font_views(r.1@) == plan.0
                        &&& plan.1 ==> (r.0 matches Ok(out) && out@ == text)
                        &&& !plan.1 ==> (r.0 matches Err(e) && e is NoFileName)
                    },
                }
            }),
    {
        let ghost paths = import_paths(import_views(imports@));
        let mut out = temp.to_owned();
        let mut i: usize = 0;
        assert(paths.take(0) =~= Seq::<Seq<char>>::empty());
        while i < imports.len()
            invariant
                i <= imports@.len(),
                paths == import_paths(import_views(imports@)),
                printed_all(files.entries@, cwd@, paths.take(i as int), temp@) == Some(out@),
            decreases imports@.len() - i,
        {
            assert(paths.take(i + 1).drop_last() =~= paths.take(i as int));
            assert(paths.take(i + 1).last() == imports@[i as int]@.path);
            let location = if i == 0 {
                join_path(cwd, imports[i].path.as_str())
            } else {
                join_path("", imports[i].path.as_str())
            };
            proof {
                reveal_strlit("");
            }
            match files.read(location.as_str()) {
                Some(text) => {
                    let mut lines = file_to_vec_string(text.as_str());
                    let nl = "\n".to_owned();
                    proof {
                        reveal_strlit("\n");
                    }
                    let ghost before = lines@;
                    lines.push(nl);
                    assert(string_views(lines@) =~= string_views(before).push("\n"@));
                    out = crate::utils::write_vec_string_in_file(out.as_str(), &lines);
                },
                None => {
                    proof {
                        lemma_printed_all_none(files.entries@, cwd@, paths, temp@, i as int);
                    }
                    return (Err(CatrinaError::FileNotRead(location)), Vec::new());
                },
            }
            i = i + 1;
        }
        assert(paths.take(imports@.len() as int) =~= paths);
        let (fonts, copied) = self.copy_fonts(imports);
        match copied {
            Ok(()) => (Ok(out), fonts),
            Err(e) => (Err(e), fonts),
        }
    }

    /// A stylesheet minified; an error, with the text left as it is, if the
    /// minifier refuses it.
    pub fn minify_file_content(content: &str) -> (r: Result<String, CatrinaError>)
        requires
            css_minify_safe(content@),
        ensures
            match css_minified(content@) {
                Some(m) => r matches Ok(out) && out@ == m,
                None => r matches Err(e) && e is MinifyRefused,
            },
    {
        match minify_css(content) {
            Some(m) => Ok(m),
            None => Err(CatrinaError::MinifyRefused),
        }
    }
}

/// Whether the character at `i` of a stylesheet is one that the minifier
/// takes: unless it is a `*`, any; after a `*`, an ASCII character, and
/// after `*!` or `**`, an ASCII character again.
pub open spec fn css_safe_at(s: Seq<char>, i: int) -> bool {
    s[i] == '*' ==> {
        &&& i + 1 < s.len() ==> is_ascii_char(s[i + 1])
        &&& (i + 2 < s.len() && (s[i + 1] == '!' || s[i + 1] == '*')) ==> is_ascii_char(
            s[i + 2],
        )
    }
}

/// Stylesheets on which the minifier of the `minifier` crate cannot panic:
/// no non-ASCII character right after a `*`, nor right after `*!` or `**`.
/// On a comment with no end its tokenizer cuts the text one byte past those
/// characters, inside such a character; a text that breaks this condition
/// is not taken, whether or not its comments end.
pub open spec fn css_minify_safe(s: Seq<char>) -> bool {
    forall|i: int| 0 <= i < s.len() ==> #[trigger] css_safe_at(s, i)
}

/// Whether the minifier takes the stylesheet `content` (see
/// `css_minify_safe`).
pub fn css_safe_for_minifier(content: &str) -> (b: bool)
    ensures
        b == css_minify_safe(content@),
{
    let v = chars_of(content);
    let n: usize = v.len();
    let mut i: usize = 0;
    while i < n
        invariant
            i <= n,
            n == v@.len(),
            v@ == content@,
            forall|k: int| 0 <= k < i ==> #[trigger] css_safe_at(v@, k),
        decreases n - i,
    {
        if v[i] == '*' {
            if n - i > 1 && !is_ascii(v[i + 1]) {
                assert(!css_safe_at(v@, i as int));
                return false;
            }
            if n - i > 2 && (v[i + 1] == '!' || v[i + 1] == '*') && !is_ascii(v[i + 2]) {
                assert(!css_safe_at(v@, i as int));
                return false;
            }
        }
        assert(css_safe_at(v@, i as int));
        i = i + 1;
    }
    true
}

/// What minifying a stylesheet gives: the minified text, or why there is
/// none.
pub open spec fn css_minify_outcome(s: Seq<char>) -> Result<Seq<char>, ErrorView> {
    if !css_minify_safe(s) {
        Err(ErrorView::MinifyUnsafe)
    } else {
        match css_minified(s) {
            Some(m) => Ok(m),
            None => Err(ErrorView::MinifyRefused),
        }
    }
}

/// A stylesheet minified, or why it cannot be (see `css_minify_outcome`).
pub fn css_minify_checked(content: &str) -> (r: Result<String, CatrinaError>)
    ensures
        crate::js::text_view(r) == css_minify_outcome(content@),
{
    if css_safe_for_minifier(content) {
        Parser::minify_file_content(content)
    } else {
        Err(CatrinaError::MinifyUnsafe)
    }
}

/// What the minifier of the `html_minifier` crate (that is, of `minifier`)
/// makes of a stylesheet, if it accepts it.
pub uninterp spec fn css_minified(content: Seq<char>) -> Option<Seq<char>>;

/// Trusted: `html_minifier::css::minify` (from the `minifier` crate) either
/// minifies the stylesheet or refuses it; the outcome depends on the text
/// alone.  What the minified text is is not stated.  The `requires` leaves
/// out the texts on which its tokenizer panics (see `css_minify_safe`).
#[verifier::external_body]
fn minify_css(content: &str) -> (r: Option<String>)
    requires
        css_minify_safe(content@),
    ensures
        match r {
            Some(m) => css_minified(content@) == Some(m@),
            None => css_minified(content@) is None,
        },
{
    html_minifier::css::minify(content).ok()
}

/// The bundle after each stylesheet of `paths` is appended without its
/// `@import` lines, or none if one of them was not read.
pub open spec fn appended_all(
    lib: Seq<char>,
    entries: Seq<crate::utils::FileEntry>,
    start: Seq<char>,
    paths: Seq<Seq<char>>,
) -> Option<Seq<char>>
    decreases paths.len(),
{
    if paths.len() == 0 {
        Some(start)
    } else {
        match appended_all(lib, entries, start, paths.drop_last()) {
            Some(prev) => match sheet_text(lib, entries, paths.last()) {
                Some(text) => Some(prev + appended_text(LineFilter::WithoutImports, lines_of(text))),
                None => None,
            },
            None => None,
        }
    }
}

/// The first stylesheet of `paths` that was not read, as the path it is read
/// from, if there is one.
pub open spec fn first_unread(
    lib: Seq<char>,
    entries: Seq<crate::utils::FileEntry>,
    paths: Seq<Seq<char>>,
) -> Option<Seq<char>>
    decreases paths.len(),
{
    if paths.len() == 0 {
        None
    } else {
        match first_unread(lib, entries, paths.drop_last()) {
            Some(p) => Some(p),
            None => match sheet_text(lib, entries, paths.last()) {
                Some(_) => None,
                None => Some(import_location(lib, paths.last())),
            },
        }
    }
}

/// The outcome of `recursive_imports` from the rewritten bundle `start` and
/// the stylesheets to append.
pub open spec fn recursive_result(
    lib: Seq<char>,
    entries: Seq<crate::utils::FileEntry>,
    start: Seq<char>,
    paths: Seq<Seq<char>>,
    r: Result<String, CatrinaError>,
) -> bool {
    match appended_all(lib, entries, start, paths) {
        Some(text) => r matches Ok(out) && out@ == text,
        None => r matches Err(e) && e matches CatrinaError::FileNotRead(p) && first_unread(
            lib,
            entries,
            paths,
        ) == Some(p@),
    }
}

proof fn lemma_first_unread_prefix(
    lib: Seq<char>,
    entries: Seq<crate::utils::FileEntry>,
    start: Seq<char>,
    paths: Seq<Seq<char>>,
    i: int,
)
    requires
        0 <= i <= paths.len(),
        appended_all(lib, entries, start, paths.take(i)) is Some,
    ensures
        first_unread(lib, entries, paths.take(i)) is None,
    decreases i,
{
    if i > 0 {
        assert(paths.take(i).drop_last() =~= paths.take(i - 1));
        lemma_first_unread_prefix(lib, entries, start, paths, i - 1);
    }
}

proof fn lemma_appended_all_none(
    lib: Seq<char>,
    entries: Seq<crate::utils::FileEntry>,
    start: Seq<char>,
    paths: Seq<Seq<char>>,
    i: int,
)
    requires
        0 <= i < paths.len(),
        appended_all(lib, entries, start, paths.take(i)) is Some,
        sheet_text(lib, entries, paths[i]) is None,
    ensures
        appended_all(lib, entries, start, paths) is None,
        first_unread(lib, entries, paths) == Some(import_location(lib, paths[i])),
    decreases paths.len() - i,
{
    lemma_first_unread_prefix(lib, entries, start, paths, i);
    lemma_unread_extends(lib, entries, start, paths, i + 1, paths[i]);
}

proof fn lemma_unread_extends(
    lib: Seq<char>,
    entries: Seq<crate::utils::FileEntry>,
    start: Seq<char>,
    paths: Seq<Seq<char>>,
    j: int,
    bad: Seq<char>,
)
    requires
        1 <= j <= paths.len(),
        paths[j - 1] == bad,
        appended_all(lib, entries, start, paths.take(j - 1)) is Some,
        first_unread(lib, entries, paths.take(j - 1)) is None,
        sheet_text(lib, entries, bad) is None,
    ensures
        appended_all(lib, entries, start, paths.take(j)) is None,
        first_unread(lib, entries, paths.take(j)) == Some(import_location(lib, bad)),
        appended_all(lib, entries, start, paths) is None,
        first_unread(lib, entries, paths) == Some(import_location(lib, bad)),
    decreases paths.len() - j,
{
    assert(paths.take(j).drop_last() =~= paths.take(j - 1));
    if j < paths.len() {
        lemma_unread_stays(lib, entries, start, paths, j, bad);
    } else {
        assert(paths.take(j) =~= paths);
    }
}

proof fn lemma_unread_stays(
    lib: Seq<char>,
    entries: Seq<crate::utils::FileEntry>,
    start: Seq<char>,
    paths: Seq<Seq<char>>,
    j: int,
    bad: Seq<char>,
)
    requires
        1 <= j <= paths.len(),
        appended_all(lib, entries, start, paths.take(j)) is None,
        first_unread(lib, entries, paths.take(j)) == Some(import_location(lib, bad)),
    ensures
        appended_all(lib, entries, start, paths) is None,
        first_unread(lib, entries, paths) == Some(import_location(lib, bad)),
    decreases paths.len() - j,
{
    if j == paths.len() {
        assert(paths.take(j) =~= paths);
    } else {
        assert(paths.take(j + 1).drop_last() =~= paths.take(j));
        lemma_unread_stays(lib, entries, start, paths, j + 1, bad);
    }
}

/// The path at which the `k`-th imported stylesheet is read: inside `cwd`
/// for the first, as it is for the later ones.
pub open spec fn printed_location(cwd: Seq<char>, paths: Seq<Seq<char>>, k: int) -> Seq<char> {
    if k == 0 {
        push_path(cwd, paths[k])
    } else {
        push_path(Seq::empty(), paths[k])
    }
}

/// The bundle after the files of `paths` are appended, each with an extra
/// line feed, or none if one was not read.
pub open spec fn printed_all(
    entries: Seq<crate::utils::FileEntry>,
    cwd: Seq<char>,
    paths: Seq<Seq<char>>,
    temp: Seq<char>,
) -> Option<Seq<char>>
    decreases paths.len(),
{
    if paths.len() == 0 {
        Some(temp)
    } else {
        match printed_all(entries, cwd, paths.drop_last(), temp) {
            Some(prev) => match lookup(entries, printed_location(cwd, paths, paths.len() - 1)) {
                Some(text) => Some(
                    prev + appended_text(LineFilter::All, lines_of(text).push("\n"@)),
                ),
                None => None,
            },
            None => None,
        }
    }
}

/// The index of the first file of `paths` that was not read, if any.
pub open spec fn first_unprinted(
    entries: Seq<crate::utils::FileEntry>,
    cwd: Seq<char>,
    paths: Seq<Seq<char>>,
) -> Option<int>
    decreases paths.len(),
{
    if paths.len() == 0 {
        None
    } else {
        match first_unprinted(entries, cwd, paths.drop_last()) {
            Some(k) => Some(k),
            None => match lookup(entries, printed_location(cwd, paths, paths.len() - 1)) {
                Some(_) => None,
                None => Some(paths.len() - 1),
            },
        }
    }
}

/// The outcome of `print_imports`.
pub open spec fn printed_result(
    entries: Seq<crate::utils::FileEntry>,
    cwd: Seq<char>,
    paths: Seq<Seq<char>>,
    temp: Seq<char>,
    r: Result<String, CatrinaError>,
) -> bool {
    match printed_all(entries, cwd, paths, temp) {
        Some(text) => r matches Ok(out) && out@ == text,
        None => r matches Err(e) && e matches CatrinaError::FileNotRead(p) && (
        first_unprinted(entries, cwd, paths) matches Some(k) && p@ == printed_location(
            cwd,
            paths,
            k,
        )),
    }
}

proof fn lemma_printed_location_prefix(cwd: Seq<char>, paths: Seq<Seq<char>>, i: int, k: int)
    requires
        0 <= k < i <= paths.len(),
    ensures
        printed_location(cwd, paths.take(i), k) == printed_location(cwd, paths, k),
{
}

proof fn lemma_printed_all_none(
    entries: Seq<crate::utils::FileEntry>,
    cwd: Seq<char>,
    paths: Seq<Seq<char>>,
    temp: Seq<char>,
    i: int,
)
    requires
        0 <= i < paths.len(),
        printed_all(entries, cwd, paths.take(i), temp) is Some,
        lookup(entries, printed_location(cwd, paths, i)) is None,
    ensures
        printed_all(entries, cwd, paths, temp) is None,
        first_unprinted(entries, cwd, paths) == Some(i),
{
    lemma_first_unprinted_prefix(entries, cwd, paths, temp, i);
    let t = paths.take(i + 1);
    assert(t.drop_last() =~= paths.take(i));
    lemma_printed_location_prefix(cwd, paths, i + 1, i);
    lemma_unprinted_stays(entries, cwd, paths, temp, i + 1, i);
}

proof fn lemma_first_unprinted_prefix(
    entries: Seq<crate::utils::FileEntry>,
    cwd: Seq<char>,
    paths: Seq<Seq<char>>,
    temp: Seq<char>,
    i: int,
)
    requires
        0 <= i <= paths.len(),
        printed_all(entries, cwd, paths.take(i), temp) is Some,
    ensures
        first_unprinted(entries, cwd, paths.take(i)) is None,
    decreases i,
{
    if i > 0 {
        let t = paths.take(i);
        assert(t.drop_last() =~= paths.take(i - 1));
        lemma_first_unprinted_prefix(entries, cwd, paths, temp, i - 1);
        lemma_printed_location_prefix(cwd, paths, i, i - 1);
        if i - 1 > 0 {
            assert(printed_location(cwd, t.drop_last(), i - 2) == printed_location(cwd, paths, i - 2));
        }
    }
}

proof fn lemma_unprinted_stays(
    entries: Seq<crate::utils::FileEntry>,
    cwd: Seq<char>,
    paths: Seq<Seq<char>>,
    temp: Seq<char>,
    j: int,
    bad: int,
)
    requires
        1 <= j <= paths.len(),
        printed_all(entries, cwd, paths.take(j), temp) is None,
        first_unprinted(entries, cwd, paths.take(j)) == Some(bad),
    ensures
        printed_all(entries, cwd, paths, temp) is None,
        first_unprinted(entries, cwd, paths) == Some(bad),
    decreases paths.len() - j,
{
    if j == paths.len() {
        assert(paths.take(j) =~= paths);
    } else {
        assert(paths.take(j + 1).drop_last() =~= paths.take(j));
        lemma_unprinted_stays(entries, cwd, paths, temp, j + 1, bad);
    }
}

/// A list of line indices without consecutive repeats, as `Vec::dedup`
/// leaves it.
pub fn dedup_indices(v: &Vec<usize>) -> (d: Vec<usize>)
    ensures
        usize_ints(d@) == dedup_seq(usize_ints(v@)),
        forall|k: int| 0 <= k < d@.len() ==> exists|j: int| 0 <= j < v@.len() && v@[j] == #[trigger] d@[k],
{
    let ghost s = usize_ints(v@);
    let mut d: Vec<usize> = Vec::new();
    let mut i: usize = 0;
    while i < v.len()
        invariant
            i <= v@.len(),
            s == usize_ints(v@),
            usize_ints(d@) == dedup_seq(s.take(i as int)),
            forall|k: int| 0 <= k < d@.len() ==> exists|j: int| 0 <= j < v@.len() && v@[j] == #[trigger] d@[k],
        decreases v@.len() - i,
    {
        assert(s.take(i + 1).drop_last() =~= s.take(i as int));
        assert(s.take(i + 1).last() == v@[i as int] as int);
        let ghost old_d = d@;
        if d.len() > 0 && d[d.len() - 1] == v[i] {
            assert(usize_ints(d@).last() == d@.last() as int);
        } else {
            proof {
                if d@.len() > 0 {
                    assert(usize_ints(d@).last() == d@.last() as int);
                }
            }
            d.push(v[i]);
            assert(usize_ints(d@) =~= usize_ints(old_d).push(v@[i as int] as int));
            assert forall|k: int| 0 <= k < d@.len() implies exists|j: int|
                0 <= j < v@.len() && v@[j] == #[trigger] d@[k] by {
                if k == d@.len() - 1 {
                    assert(v@[i as int] == d@[k]);
                } else {
                    assert(d@[k] == old_d[k]);
                }
            }
        }
        i = i + 1;
    }
    assert(s.take(v@.len() as int) =~= s);
    d
}

/// A list of imports without consecutive entries of the same path, as
/// `Vec::dedup_by` comparing paths leaves it.
pub fn dedup_imports(v: &Vec<Import>) -> (d: Vec<Import>)
    ensures
        import_paths(import_views(d@)) == dedup_seq(import_paths(import_views(v@))),
        forall|k: int| 0 <= k < d@.len() ==> exists|j: int| 0 <= j < v@.len() && v@[j]@ == (#[trigger] d@[k])@,
{
    let ghost s = import_paths(import_views(v@));
    let mut d: Vec<Import> = Vec::new();
    let mut i: usize = 0;
    while i < v.len()
        invariant
            i <= v@.len(),
            s == import_paths(import_views(v@)),
            import_paths(import_views(d@)) == dedup_seq(s.take(i as int)),
            forall|k: int| 0 <= k < d@.len() ==> exists|j: int| 0 <= j < v@.len() && v@[j]@ == (#[trigger] d@[k])@,
        decreases v@.len() - i,
    {
        assert(s.take(i + 1).drop_last() =~= s.take(i as int));
        assert(s.take(i + 1).last() == v@[i as int]@.path);
        let ghost old_d = d@;
        if d.len() > 0 && d[d.len() - 1].path == v[i].path {
            assert(import_paths(import_views(d@)).last() == d@.last()@.path);
        } else {
            proof {
                if d@.len() > 0 {
                    assert(import_paths(import_views(d@)).last() == d@.last()@.path);
                }
            }
            let c = copy_import(&v[i]);
            d.push(c);
            assert(import_paths(import_views(d@)) =~= import_paths(import_views(old_d)).push(
                v@[i as int]@.path,
            ));
            assert forall|k: int| 0 <= k < d@.len() implies exists|j: int|
                0 <= j < v@.len() && v@[j]@ == (#[trigger] d@[k])@ by {
                if k == d@.len() - 1 {
                    assert(v@[i as int]@ == d@[k]@);
                } else {
                    assert(d@[k] == old_d[k]);
                }
            }
        }
        i = i + 1;
    }
    assert(s.take(v@.len() as int) =~= s);
    d
}

} // verus!
