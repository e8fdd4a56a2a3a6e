//! A project: its configuration, the files that starting it creates, and
//! the steps that turn its entry files into bundles.
use vstd::prelude::*;
use vstd::string::*;
use crate::config::{config_texts, standard_config, standard_config_spec, Config};
use crate::css::{import_views, Parser as CssParser, RelationCSSFont};
use crate::errors::{CatrinaError, ErrorView};
use crate::import::{Import, ImportView};
use crate::js::{import_outcome, import_view, text_view, Parser as JsParser};
use crate::paths::{join_path, push_path};
use crate::text::{chars_of, contains, has_substring, replace, replace_all, string_of, string_views};
use crate::utils::{
    appended_text, file_to_vec_string, FileSet, lines_of, write_vec_string_in_file,
    write_vec_string_in_file_start, LineFilter,
};

verus! {

/// A project, known by its configuration.
pub struct Project {
    /// The project configuration.
    pub config: Config,
}

/// One thing that starting a project does to the file system, in order.
#[derive(Debug)]
pub enum StartStep {
    /// Write the configuration to `catrina.config.json`.
    WriteConfig,
    /// Create an entry file at this path inside the project directory, and
    /// the directories on its way.
    CreateInputFile(String),
    /// Create this directory and those on its way.
    CreateDirAll(String),
    /// Create this file, empty.
    CreateFile(String),
    /// Show the configuration file to the user.
    ShowConfig,
}

/// A start step as plain values.
pub enum StartStepView {
    /// See [`StartStep::WriteConfig`].
    WriteConfig,
    /// See [`StartStep::CreateInputFile`].
    CreateInputFile(Seq<char>),
    /// See [`StartStep::CreateDirAll`].
    CreateDirAll(Seq<char>),
    /// See [`StartStep::CreateFile`].
    CreateFile(Seq<char>),
    /// See [`StartStep::ShowConfig`].
    ShowConfig,
}

impl View for StartStep {
    type V = StartStepView;

    open spec fn view(&self) -> StartStepView {
        match self {
            StartStep::WriteConfig => StartStepView::WriteConfig,
            StartStep::CreateInputFile(p) => StartStepView::CreateInputFile(p@),
            StartStep::CreateDirAll(p) => StartStepView::CreateDirAll(p@),
            StartStep::CreateFile(p) => StartStepView::CreateFile(p@),
            StartStep::ShowConfig => StartStepView::ShowConfig,
        }
    }
}

/// The views of a list of start steps.
pub open spec fn step_views(v: Seq<StartStep>) -> Seq<StartStepView> {
    v.map_values(|s: StartStep| s@)
}

/// `a`, a slash and `b`.
pub open spec fn slash_join(a: Seq<char>, b: Seq<char>) -> Seq<char> {
    a + "/"@ + b
}

/// What starting a project with configuration `c` does: write the
/// configuration, create both entry files, the deploy directory and the two
/// empty bundles in it, then show the configuration.
pub open spec fn start_steps(c: Config) -> Seq<StartStepView> {
    seq![
        StartStepView::WriteConfig,
        StartStepView::CreateInputFile(c.input_js@),
        StartStepView::CreateInputFile(c.input_css@),
        StartStepView::CreateDirAll(c.deploy_path@),
        StartStepView::CreateFile(slash_join(c.deploy_path@, c.out_js@)),
        StartStepView::CreateFile(slash_join(c.deploy_path@, c.out_css@)),
        StartStepView::ShowConfig,
    ]
}

/// The lines that `BufRead::lines` gives for a text: the lines of
/// `lines_of` without their line feed, and without a carriage return
/// before it.
pub open spec fn read_lines(text: Seq<char>) -> Seq<Seq<char>> {
    lines_of(text).map_values(|l: Seq<char>| strip_line_end(l))
}

/// A line without its ending: a final line feed, and a carriage return
/// before it, are dropped.
pub open spec fn strip_line_end(l: Seq<char>) -> Seq<char> {
    if l.len() > 0 && l.last() == '\n' {
        let m = l.drop_last();
        if m.len() > 0 && m.last() == '\r' {
            m.drop_last()
        } else {
            m
        }
    } else {
        l
    }
}

/// Whether a line of the JavaScript entry file imports from the library.
pub open spec fn is_js_import_line(l: Seq<char>) -> bool {
    has_substring(l, "import"@) && has_substring(l, "catrina"@) && !has_substring(l, "core"@)
}

/// Whether a line of the CSS entry file imports from the library.
pub open spec fn is_css_import_line(l: Seq<char>) -> bool {
    has_substring(l, "@import"@) && has_substring(l, "catrina/"@) && !has_substring(
        l,
        "core.css"@,
    )
}

/// Scanning the lines of the JavaScript entry file: the imports read so far,
/// the index of the last import line, and the first error.
pub open spec fn js_imports_scan(lines: Seq<Seq<char>>, lib: Seq<char>) -> (
    Seq<ImportView>,
    Option<int>,
    Option<ErrorView>,
)
    decreases lines.len(),
{
    if lines.len() == 0 {
        (Seq::empty(), None, None)
    } else {
        let (imps, last, err) = js_imports_scan(lines.drop_last(), lib);
        if err is Some {
            (imps, last, err)
        } else if is_js_import_line(lines.last()) {
            match import_outcome(lines.last(), lib, false) {
                Ok(i) => (imps.push(i), Some(lines.len() - 1), None),
                Err(e) => (imps, last, Some(e)),
            }
        } else {
            (imps, last, None)
        }
    }
}

/// Scanning the lines of the CSS entry file: the imports its library lines
/// name, and the index of the last of those lines.
pub open spec fn css_imports_scan(lines: Seq<Seq<char>>) -> (Seq<ImportView>, Option<int>)
    decreases lines.len(),
{
    if lines.len() == 0 {
        (Seq::empty(), None)
    } else {
        let (imps, last) = css_imports_scan(lines.drop_last());
        if is_css_import_line(lines.last()) {
            (
                imps.push(
                    ImportView {
                        names: Seq::empty(),
                        path: crate::css::extracted_import_path(lines.last()),
                    },
                ),
                Some(lines.len() - 1),
            )
        } else {
            (imps, last)
        }
    }
}

/// The lines after the one at index `start`.
pub open spec fn lines_after(lines: Seq<Seq<char>>, start: int) -> Seq<Seq<char>> {
    if start + 1 <= lines.len() {
        lines.skip(start + 1)
    } else {
        Seq::empty()
    }
}

/// The lines of a script that remain once its `import` lines are dropped,
/// each without its `"export "` words.
pub open spec fn cleared_lines(lines: Seq<Seq<char>>) -> Seq<Seq<char>>
    decreases lines.len(),
{
    if lines.len() == 0 {
        Seq::empty()
    } else {
        let prev = cleared_lines(lines.drop_last());
        if !has_substring(lines.last(), "import"@) {
            prev.push(replace_all(lines.last(), "export "@, Seq::empty()))
        } else {
            prev
        }
    }
}

/// The JavaScript bundle once the imports and exports between its pieces are
/// taken out: unchanged for a module, or when empty; else the cleared lines
/// and a line feed, or nothing if no line remains.
pub open spec fn without_exports(module: bool, text: Seq<char>) -> Seq<char> {
    if module || lines_of(text).len() == 0 {
        text
    } else {
        appended_text(LineFilter::All, cleared_lines(lines_of(text)))
    }
}

impl Project {
    /// The project with configuration `config`.
    pub fn new(config: Config) -> (p: Project)
        ensures
            p.config == config,
    {
        Project { config }
    }

    /// What starting the project does to the file system, in order: the
    /// configuration file, the entry files, the deploy directory and its two
    /// empty bundles, and at the end the configuration is shown.
    pub fn start(&self) -> (steps: Vec<StartStep>)
        ensures
            step_views(steps@) == start_steps(self.config),
    {
        proof {
            reveal_strlit("/");
        }
        let js = String::from_str(self.config.deploy_path.as_str()).concat("/").concat(
            self.config.out_js.as_str(),
        );
        let css = String::from_str(self.config.deploy_path.as_str()).concat("/").concat(
            self.config.out_css.as_str(),
        );
        let mut steps: Vec<StartStep> = Vec::new();
        steps.push(StartStep::WriteConfig);
        steps.push(StartStep::CreateInputFile(self.config.input_js.clone()));
        steps.push(StartStep::CreateInputFile(self.config.input_css.clone()));
        steps.push(StartStep::CreateDirAll(self.config.deploy_path.clone()));
        steps.push(StartStep::CreateFile(js));
        steps.push(StartStep::CreateFile(css));
        steps.push(StartStep::ShowConfig);
        assert(step_views(steps@) =~= start_steps(self.config));
        steps
    }

    /// The library imports of the JavaScript entry file, given by its lines,
    /// in order; `counter` becomes the index of the last line read as an
    /// import (it keeps its value when there is none).  An error if an import
    /// line cannot be read, with `counter` at the last import line before it.
    pub fn get_imports_js(&self, lines: &Vec<String>, counter: &mut usize) -> (r: Result<
        Vec<Import>,
        CatrinaError,
    >)
        ensures
            ({
                let (imps, last, err) = js_imports_scan(
                    string_views(lines@),
                    self.config.location_lib@,
                );
                &&& match err {
                    None => r matches Ok(v) && import_views(v@) == imps,
                    Some(e) => r matches Err(x) && x@ == e,
                }
                &&& *final(counter) == match last {
                    Some(k) => k,
                    None => *old(counter) as int,
                }
            }),
    {
        let ghost ls = string_views(lines@);
        let ghost lib = self.config.location_lib@;
        let ghost start = *counter;
        let mut imports: Vec<Import> = Vec::new();
        let mut i: usize = 0;
        proof {
            reveal_strlit("import");
            reveal_strlit("catrina");
            reveal_strlit("core");
        }
        assert(ls.take(0) =~= Seq::<Seq<char>>::empty());
        assert(import_views(imports@) =~= Seq::<ImportView>::empty());
        while i < lines.len()
            invariant
                i <= lines@.len(),
                ls == string_views(lines@),
                lib == self.config.location_lib@,
                start == *old(counter),
                ({
                    let (imps, last, err) = js_imports_scan(ls.take(i as int), lib);
                    &&& err is None
                    &&& imps == import_views(imports@)
                    &&& *counter == match last {
                        Some(k) => k,
                        None => start as int,
                    }
                }),
            decreases lines@.len() - i,
        {
            assert(ls.take(i + 1).drop_last() =~= ls.take(i as int));
            assert(ls.take(i + 1).last() == lines@[i as int]@);
            let line = lines[i].as_str();
            if contains(line, "import") && contains(line, "catrina") && !contains(line, "core") {
                match JsParser::new_import_by_line(line, &self.config, false) {
                    Ok(import) => {
                        let ghost before = imports@;
                        imports.push(import);
                        assert(import_views(imports@) =~= import_views(before).push(import@));
                        *counter = i;
                    },
                    Err(e) => {
                        proof {
                            let prev = js_imports_scan(ls.take(i as int), lib);
                            assert(import_outcome(line@, lib, false) == Err::<ImportView, ErrorView>(e@));
                            assert(js_imports_scan(ls.take(i + 1), lib) == (prev.0, prev.1, Some(e@)));
                            lemma_js_scan_stuck(ls, lib, i as int + 1);
                        }
                        return Err(e);
                    },
                }
            }
            i = i + 1;
        }
        assert(ls.take(lines@.len() as int) =~= ls);
        Ok(imports)
    }

    /// The library imports of the CSS entry file, given by its lines, in
    /// order; `counter` becomes the index of the last of their lines (it keeps
    /// its value when there is none).
    pub fn get_imports_css(&self, lines: &Vec<String>, counter: &mut usize) -> (imports: Vec<
        Import,
    >)
        ensures
            import_views(imports@) == css_imports_scan(string_views(lines@)).0,
            *final(counter) == match css_imports_scan(string_views(lines@)).1 {
                Some(k) => k,
                None => *old(counter) as int,
            },
    {
        let ghost ls = string_views(lines@);
        let ghost start = *counter;
        let mut imports: Vec<Import> = Vec::new();
        let mut i: usize = 0;
        proof {
            reveal_strlit("@import");
            reveal_strlit("catrina/");
            reveal_strlit("core.css");
        }
        assert(ls.take(0) =~= Seq::<Seq<char>>::empty());
        assert(import_views(imports@) =~= Seq::<ImportView>::empty());
        while i < lines.len()
            invariant
                i <= lines@.len(),
                ls == string_views(lines@),
                start == *old(counter),
                import_views(imports@) == css_imports_scan(ls.take(i as int)).0,
                *counter == match css_imports_scan(ls.take(i as int)).1 {
                    Some(k) => k,
                    None => start as int,
                },
            decreases lines@.len() - i,
        {
            assert(ls.take(i + 1).drop_last() =~= ls.take(i as int));
            assert(ls.take(i + 1).last() == lines@[i as int]@);
            let line = lines[i].as_str();
            if contains(line, "@import") && contains(line, "catrina/") && !contains(
                line,
                "core.css",
            ) {
                let import = CssParser::extract_import(line);
                let ghost before = imports@;
                imports.push(import);
                assert(import_views(imports@) =~= import_views(before).push(import@));
                assert(import@.names =~= Seq::<Seq<char>>::empty());
                assert(import@ == ImportView {
                    names: Seq::empty(),
                    path: crate::css::extracted_import_path(line@),
                });
                *counter = i;
            }
            i = i + 1;
        }
        assert(ls.take(lines@.len() as int) =~= ls);
        imports
    }

    /// The file `to_text` after the lines of `from_text` that come after the
    /// one at index `from_line_start` are appended to it.
    pub fn copy_all_content(from_line_start: usize, from_text: &str, to_text: &str) -> (out:
        String)
        ensures
            out@ == to_text@ + appended_text(
                LineFilter::All,
                lines_after(lines_of(from_text@), from_line_start as int),
            ),
    {
        let raw = Project::raw_lines_after(from_line_start, from_text);
        write_vec_string_in_file(to_text, &raw)
    }

    /// The file `to_text` after the lines of `from_text` that come after the
    /// one at index `from_line_start` are put in front of it.
    pub fn copy_all_content_in_start(from_line_start: usize, from_text: &str, to_text: &str) -> (out:
        String)
        ensures
            ({
                let raw = lines_after(lines_of(from_text@), from_line_start as int);
                &&& raw.len() == 0 ==> out@ == to_text@
                &&& raw.len() > 0 ==> out@ == raw.flatten_alt() + seq!['\n'] + to_text@ + seq![
                    '\n',
                ]
            }),
    {
        let raw = Project::raw_lines_after(from_line_start, from_text);
        write_vec_string_in_file_start(to_text, &raw)
    }

    /// The lines of `text` after the one at index `start`.
    fn raw_lines_after(start: usize, text: &str) -> (raw: Vec<String>)
        ensures
            string_views(raw@) == lines_after(lines_of(text@), start as int),
    {
        let lines = file_to_vec_string(text);
        let ghost ls = string_views(lines@);
        let mut raw: Vec<String> = Vec::new();
        let mut i: usize = 0;
        assert(string_views(raw@) =~= Seq::<Seq<char>>::empty());
        while i < lines.len()
            invariant
                i <= lines@.len(),
                ls == string_views(lines@),
                string_views(raw@) == if i > start {
                    ls.subrange(start + 1, i as int)
                } else {
                    Seq::<Seq<char>>::empty()
                },
            decreases lines@.len() - i,
        {
            if i > start {
                let ghost before = raw@;
                let l = lines[i].clone();
                raw.push(l);
                assert(string_views(raw@) =~= string_views(before).push(l@));
                proof {
                    if i == start + 1 {
                        assert(string_views(before) =~= Seq::<Seq<char>>::empty());
                    }
                }
                assert(string_views(raw@) =~= ls.subrange(start + 1, i + 1));
            }
            i = i + 1;
        }
        proof {
            if lines@.len() > start {
                assert(ls.subrange(start + 1, lines@.len() as int) =~= ls.skip(start + 1));
            }
        }
        raw
    }

    /// The lines of `text` as `BufRead::lines` gives them.
    pub fn read_lines(text: &str) -> (lines: Vec<String>)
        ensures
            string_views(lines@) == read_lines(text@),
    {
        let raw = file_to_vec_string(text);
        let ghost rs = string_views(raw@);
        let mut lines: Vec<String> = Vec::new();
        let mut i: usize = 0;
        assert(string_views(lines@) =~= rs.take(0).map_values(|l: Seq<char>| strip_line_end(l)));
        while i < raw.len()
            invariant
                i <= raw@.len(),
                rs == string_views(raw@),
                string_views(lines@) == rs.take(i as int).map_values(
                    |l: Seq<char>| strip_line_end(l),
                ),
            decreases raw@.len() - i,
        {
            let v = chars_of(raw[i].as_str());
            let mut n: usize = v.len();
            if n > 0 && v[n - 1] == '\n' {
                n = n - 1;
                if n > 0 && v[n - 1] == '\r' {
                    n = n - 1;
                }
            }
            let mut w: Vec<char> = Vec::new();
            let mut k: usize = 0;
            while k < n
                invariant
                    k <= n <= v@.len(),
                    w@ == v@.take(k as int),
                decreases n - k,
            {
                w.push(v[k]);
                k = k + 1;
            }
            let l = string_of(w.as_slice());
            proof {
                let x = v@;
                if x.len() > 0 && x.last() == '\n' {
                    let m = x.drop_last();
                    if m.len() > 0 && m.last() == '\r' {
                        assert(m.drop_last() =~= x.take(n as int));
                    } else {
                        assert(m =~= x.take(n as int));
                    }
                } else {
                    assert(x =~= x.take(n as int));
                }
            }
            let ghost before = lines@;
            lines.push(l);
            assert(string_views(lines@) =~= string_views(before).push(l@));
            assert(rs.take(i + 1).map_values(|l: Seq<char>| strip_line_end(l)) =~= rs.take(
                i as int,
            ).map_values(|l: Seq<char>| strip_line_end(l)).push(strip_line_end(rs[i as int])));
            i = i + 1;
        }
        assert(rs.take(raw@.len() as int) =~= rs);
        lines
    }

    /// The JavaScript bundle of the project: see `js_bundle`.  The library
    /// core is `core_bundle`, its modules are `directory`, the entry file's
    /// text is `input_text`, and the library module files are in `files`.
    pub fn build_js(&self, core_bundle: &str, directory: Vec<Import>, input_text: &str, files: &FileSet) -> (r: Result<String, CatrinaError>)
        ensures
            text_view(r) == js_bundle(
                self.config,
                core_bundle@,
                import_views(directory@),
                input_text@,
                files.entries@,
            ),
    {
        let lines = Project::read_lines(input_text);
        let mut line_start: usize = 0;
        let js_imports = match self.get_imports_js(&lines, &mut line_start) {
            Ok(v) => v,
            Err(e) => {
                return Err(e);
            },
        };
        let ghost dir = import_views(directory@);
        let parser = JsParser::new(directory, self.config.copy());
        let mut temp = core_bundle.to_owned();
        let ghost imps = import_views(js_imports@);
        let mut i: usize = 0;
        assert(imps.take(0) =~= Seq::<ImportView>::empty());
        while i < js_imports.len()
            invariant
                i <= js_imports@.len(),
                imps == import_views(js_imports@),
                dir == import_views(parser.directory()),
                dir == import_views(directory@),
                js_imports_scan(read_lines(input_text@), self.config.location_lib@).2 is None,
                js_imports_scan(read_lines(input_text@), self.config.location_lib@).0 == imps,
                print_all(dir, files.entries@, imps.take(i as int), core_bundle@) == Ok::<
                    Seq<char>,
                    ErrorView,
                >(temp@),
            decreases js_imports@.len() - i,
        {
            assert(imps.take(i + 1).drop_last() =~= imps.take(i as int));
            assert(imps.take(i + 1).last() == js_imports@[i as int]@);
            match parser.print_imports(&js_imports[i], files, temp.as_str()) {
                Ok(t) => {
                    temp = t;
                },
                Err(e) => {
                    proof {
                        lemma_print_all_stuck(dir, files.entries@, imps, core_bundle@, i as int + 1);
                    }
                    return Err(e);
                },
            }
            i = i + 1;
        }
        assert(imps.take(js_imports@.len() as int) =~= imps);
        let joined = Project::copy_all_content_in_start(line_start, input_text, temp.as_str());
        let cleared = self.remove_js_exports(joined.as_str());
        if self.config.minify {
            crate::js::js_minify_checked(cleared.as_str())
        } else {
            Ok(cleared)
        }
    }

    /// The first part of the CSS bundle (see `css_bundle_start`): the bundle
    /// so far, the entry file's library imports, and the index of the last of
    /// their lines; or the first import file that was not read.  The second
    /// part of the result is the fonts to copy into the deploy directory for
    /// those imports (see `css::Parser::print_imports`); an import without a
    /// file name stops that copying with an error.
    pub fn build_css_start(
        &self,
        parser: &CssParser,
        core_bundle: &str,
        input_lines: &Vec<String>,
        files: &FileSet,
        cwd: &str,
    ) -> (r: (Result<(String, Vec<Import>, usize), CatrinaError>, Vec<RelationCSSFont>))
        ensures
            ({
                let (text, imps, start) = css_bundle_start(
                    core_bundle@,
                    string_views(input_lines@),
                    files.entries@,
                    cwd@,
                );
                let plan = crate::css::font_plan(
                    imps,
                    crate::css::font_views(parser.fonts_relation()),
                    parser.config().location_lib@,
                );
                match text {
                    None => r.1@.len() == 0 && (r.0 matches Err(e) && crate::css::printed_result(
                        files.entries@,
                        cwd@,
                        crate::css::import_paths(imps),
                        core_bundle@,
                        Err(e),
                    )),
                    Some(t) => {
                        &&& crate::css::font_views(r.1@) == plan.0
                        &&& plan.1 ==> (r.0 matches Ok((t2, v, k)) && t2@ == t && import_views(v@)
                            == imps && k == start)
                        &&& !plan.1 ==> (r.0 matches Err(e) && e is NoFileName)
                    },
                }
            }),
    {
        let mut line_start: usize = 0;
        let imports = self.get_imports_css(input_lines, &mut line_start);
        let (printed, fonts) = parser.print_imports(&imports, files, cwd, core_bundle);
        match printed {
            Ok(t) => (Ok((t, imports, line_start)), fonts),
            Err(e) => (Err(e), fonts),
        }
    }

    /// The rest of the CSS bundle from the bundle so far `temp`: the entry
    /// file after its last library import line put in front, the library
    /// stylesheets brought in by `@import` lines from the colour marker on
    /// appended (see `css::Parser::recursive_imports`), and the whole
    /// minified if asked for.
    pub fn build_css_finish(
        &self,
        parser: &CssParser,
        temp: &str,
        imports: &Vec<Import>,
        line_start: usize,
        input_text: &str,
        files: &FileSet,
    ) -> (r: Result<String, CatrinaError>)
        ensures
            ({
                let raw = lines_after(lines_of(input_text@), line_start as int);
                let joined = if raw.len() == 0 {
                    temp@
                } else {
                    raw.flatten_alt() + seq!['\n'] + temp@ + seq!['\n']
                };
                let lines = lines_of(joined);
                let plan = crate::css::raw_import_plan(
                    lines,
                    crate::css::import_paths(import_views(imports@)),
                );
                let start = crate::css::excluded_text(joined, lines, crate::css::dedup_seq(plan.0));
                match crate::css::appended_all(
                    parser.config().location_lib@,
                    files.entries@,
                    start,
                    crate::css::dedup_seq(plan.1),
                ) {
                    Some(t) => text_view(r) == if self.config.minify {
                        crate::css::css_minify_outcome(t)
                    } else {
                        Ok(t)
                    },
                    None => r matches Err(e) && e matches CatrinaError::FileNotRead(p)
                        && crate::css::first_unread(
                        parser.config().location_lib@,
                        files.entries@,
                        crate::css::dedup_seq(plan.1),
                    ) == Some(p@),
                }
            }),
    {
        let joined = Project::copy_all_content_in_start(line_start, input_text, temp);
        let done = match self.css_recursive_imports_css(joined.as_str(), imports, parser, files) {
            Ok(t) => t,
            Err(e) => {
                return Err(e);
            },
        };
        if self.config.minify {
            crate::css::css_minify_checked(done.as_str())
        } else {
            Ok(done)
        }
    }

    /// The CSS bundle in progress after its library `@import` lines are
    /// resolved (see `css::Parser::recursive_imports`).
    pub fn css_recursive_imports_css(
        &self,
        temp: &str,
        imports_list: &Vec<Import>,
        parser: &CssParser,
        files: &FileSet,
    ) -> (r: Result<String, CatrinaError>)
        ensures
            ({
                let lines = lines_of(temp@);
                let paths = crate::css::import_paths(import_views(imports_list@));
                let plan = crate::css::raw_import_plan(lines, paths);
                crate::css::recursive_result(
                    parser.config().location_lib@,
                    files.entries@,
                    crate::css::excluded_text(temp@, lines, crate::css::dedup_seq(plan.0)),
                    crate::css::dedup_seq(plan.1),
                    r,
                )
            }),
    {
        parser.recursive_imports(temp, imports_list, files)
    }

    /// The deploy directory as the backup before a build moves it: the
    /// configured path without `"./"`, inside `cwd` unless it is absolute.
    pub fn backup_source(&self, cwd: &str) -> (p: String)
        ensures
            p@ == ({
                let d = replace_all(self.config.deploy_path@, "./"@, Seq::empty());
                if d.len() > 0 && d[0] == '/' {
                    d
                } else {
                    push_path(cwd@, d)
                }
            }),
    {
        proof {
            reveal_strlit("./");
            reveal_strlit("");
        }
        assert(""@ =~= Seq::<char>::empty());
        let d = replace(self.config.deploy_path.as_str(), "./", "");
        let v = chars_of(d.as_str());
        if v.len() > 0 && v[0] == '/' {
            d
        } else {
            join_path(cwd, d.as_str())
        }
    }

    /// Where the backup goes: a hidden entry named after `random_name` in
    /// the directory `parent` of the deploy directory.
    pub fn backup_destination(parent: &str, random_name: &str) -> (p: String)
        ensures
            p@ == push_path(parent@, "."@ + random_name@),
    {
        let name = String::from_str(".").concat(random_name);
        join_path(parent, name.as_str())
    }

    /// The JavaScript bundle `temp` once the imports and exports between its
    /// pieces are taken out (see `without_exports`).
    pub fn remove_js_exports(&self, temp: &str) -> (out: String)
        ensures
            out@ == without_exports(self.config.module, temp@),
    {
        if self.config.module {
            return temp.to_owned();
        }
        let lines = file_to_vec_string(temp);
        if lines.len() == 0 {
            return temp.to_owned();
        }
        let ghost ls = string_views(lines@);
        let mut clear: Vec<String> = Vec::new();
        let mut i: usize = 0;
        proof {
            reveal_strlit("import");
            reveal_strlit("export ");
            reveal_strlit("");
        }
        assert(""@ =~= Seq::<char>::empty());
        assert(ls.take(0) =~= Seq::<Seq<char>>::empty());
        assert(string_views(clear@) =~= Seq::<Seq<char>>::empty());
        while i < lines.len()
            invariant
                i <= lines@.len(),
                ls == string_views(lines@),
                string_views(clear@) == cleared_lines(ls.take(i as int)),
            decreases lines@.len() - i,
        {
            let ghost prefix = ls.take(i + 1);
            assert(prefix.drop_last() =~= ls.take(i as int));
            assert(prefix.last() == lines@[i as int]@);
            let line = lines[i].as_str();
            proof {
                reveal_strlit("import");
                reveal_strlit("export ");
                reveal_strlit("");
            }
            assert(""@ =~= Seq::<char>::empty());
            if !contains(line, "import") {
                let c = replace(line, "export ", "");
                let ghost before = clear@;
                clear.push(c);
                assert(string_views(clear@) =~= string_views(before).push(c@));
            }
            i = i + 1;
        }
        assert(ls.take(lines@.len() as int) =~= ls);
        let out = write_vec_string_in_file("", &clear);
        proof {
            reveal_strlit("");
        }
        assert(Seq::<char>::empty() + appended_text(LineFilter::All, string_views(clear@))
            =~= appended_text(LineFilter::All, string_views(clear@)));
        out
    }
}

/// The bundle `temp` after each of `imps` in turn has its exported code
/// appended, or the first error.
pub open spec fn print_all(
    dir: Seq<ImportView>,
    entries: Seq<crate::utils::FileEntry>,
    imps: Seq<ImportView>,
    temp: Seq<char>,
) -> Result<Seq<char>, ErrorView>
    decreases imps.len(),
{
    if imps.len() == 0 {
        Ok(temp)
    } else {
        match print_all(dir, entries, imps.drop_last(), temp) {
            Err(e) => Err(e),
            Ok(t) => crate::js::print_outcome(dir, entries, imps.last(), t),
        }
    }
}

/// The JavaScript bundle after its pieces are put in the order of the
/// build: the library core `core`; the exported code of every library name
/// that the entry file imports; in front of it all, the entry file after its
/// last library import line; the imports and exports between them taken out
/// unless the project is a module; the whole minified if asked for.  Or the
/// first error.
pub open spec fn js_bundle(
    c: Config,
    core: Seq<char>,
    dir: Seq<ImportView>,
    input: Seq<char>,
    entries: Seq<crate::utils::FileEntry>,
) -> Result<Seq<char>, ErrorView> {
    let (imps, last, err) = js_imports_scan(read_lines(input), c.location_lib@);
    match err {
        Some(e) => Err(e),
        None => match print_all(dir, entries, imps, core) {
            Err(e) => Err(e),
            Ok(printed) => {
                let start = match last {
                    Some(k) => k,
                    None => 0,
                };
                let raw = lines_after(lines_of(input), start);
                let joined = if raw.len() == 0 {
                    printed
                } else {
                    raw.flatten_alt() + seq!['\n'] + printed + seq!['\n']
                };
                let cleared = without_exports(c.module, joined);
                if c.minify {
                    crate::js::js_minify_outcome(cleared)
                } else {
                    Ok(cleared)
                }
            },
        },
    }
}

/// The first part of the CSS bundle: the library core `core` with the files
/// of the entry file's library imports appended (see
/// `css::Parser::print_imports`), the imports themselves, and the index of
/// the last import line.
pub open spec fn css_bundle_start(
    core: Seq<char>,
    input_lines: Seq<Seq<char>>,
    entries: Seq<crate::utils::FileEntry>,
    cwd: Seq<char>,
) -> (Option<Seq<char>>, Seq<ImportView>, int) {
    let (imps, last) = css_imports_scan(input_lines);
    (
        crate::css::printed_all(entries, cwd, crate::css::import_paths(imps), core),
        imps,
        match last {
            Some(k) => k,
            None => 0,
        },
    )
}

/// Whether a line of the JavaScript entry file may be read as a library
/// import: it holds `"import"` and `"catrina"`, and not `"core"`.
pub open spec fn names_library_import(l: Seq<char>) -> bool {
    &&& has_substring(l, "import"@)
    &&& has_substring(l, "catrina"@)
    &&& !has_substring(l, "core"@)
}

/// The test of `names_library_import`, as a function.
pub open spec fn library_import_line() -> spec_fn(Seq<char>) -> bool {
    |l: Seq<char>| names_library_import(l)
}

/// Every import that reading a JavaScript entry file gives comes from a
/// line that holds `"import"` and `"catrina"` and not `"core"`, and is what
/// that line states; the index of the last import line is that of such a
/// line.  A line that does not mention the library is never read as a
/// library import, and when every line is read, there is one import for
/// each line that names the library.
pub proof fn law_js_imports_from_library_lines(lines: Seq<Seq<char>>, lib: Seq<char>)
    ensures
        ({
            let imps = js_imports_scan(lines, lib).0;
            forall|k: int|
                0 <= k < imps.len() ==> exists|j: int|
                    0 <= j < lines.len() && #[trigger] names_library_import(lines[j]) && import_outcome(
                        lines[j],
                        lib,
                        false,
                    ) == Ok::<ImportView, ErrorView>(#[trigger] imps[k])
        }),
        js_imports_scan(lines, lib).1 matches Some(j) ==> 0 <= j < lines.len()
            && names_library_import(lines[j]),
        js_imports_scan(lines, lib).2 is None ==> js_imports_scan(lines, lib).0.len()
            == lines.filter(library_import_line()).len(),
    decreases lines.len(),
{
    reveal(Seq::filter);
    if lines.len() > 0 {
        let p = lines.drop_last();
        law_js_imports_from_library_lines(p, lib);
        let (imps0, last0, err0) = js_imports_scan(p, lib);
        let imps = js_imports_scan(lines, lib).0;
        let n = lines.len() - 1;
        assert(lines[n] == lines.last());
        assert forall|k: int| 0 <= k < imps.len() implies exists|j: int|
            0 <= j < lines.len() && #[trigger] names_library_import(lines[j]) && import_outcome(
                lines[j],
                lib,
                false,
            ) == Ok::<ImportView, ErrorView>(#[trigger] imps[k]) by {
            if k < imps0.len() {
                assert(imps[k] == imps0[k]);
                let j = choose|j: int|
                    0 <= j < p.len() && #[trigger] names_library_import(p[j]) && import_outcome(
                        p[j],
                        lib,
                        false,
                    ) == Ok::<ImportView, ErrorView>(imps0[k]);
                assert(p[j] == lines[j]);
                assert(names_library_import(lines[j]));
            } else {
                assert(names_library_import(lines[n]));
            }
        }
        if let Some(j) = last0 {
            assert(p[j] == lines[j]);
        }
    }
}

proof fn lemma_js_scan_stuck(ls: Seq<Seq<char>>, lib: Seq<char>, j: int)
    requires
        1 <= j <= ls.len(),
        js_imports_scan(ls.take(j), lib).2 is Some,
    ensures
        js_imports_scan(ls, lib) == js_imports_scan(ls.take(j), lib),
    decreases ls.len() - j,
{
    if j == ls.len() {
        assert(ls.take(j) =~= ls);
    } else {
        assert(ls.take(j + 1).drop_last() =~= ls.take(j));
        lemma_js_scan_stuck(ls, lib, j + 1);
    }
}

proof fn lemma_print_all_stuck(
    dir: Seq<ImportView>,
    entries: Seq<crate::utils::FileEntry>,
    imps: Seq<ImportView>,
    temp: Seq<char>,
    j: int,
)
    requires
        1 <= j <= imps.len(),
        print_all(dir, entries, imps.take(j), temp) is Err,
    ensures
        print_all(dir, entries, imps, temp) == print_all(dir, entries, imps.take(j), temp),
    decreases imps.len() - j,
{
    if j == imps.len() {
        assert(imps.take(j) =~= imps);
    } else {
        assert(imps.take(j + 1).drop_last() =~= imps.take(j));
        lemma_print_all_stuck(dir, entries, imps, temp, j + 1);
    }
}

/// A new project named `project_name` in the directory `cwd` with the
/// standard configuration, and what starting it does.
pub fn auto_project(project_name: &str, cwd: &str) -> (r: (Project, Vec<StartStep>))
    ensures
        config_texts(r.0.config) == standard_config_spec(project_name@, cwd@),
        !r.0.config.module,
        !r.0.config.minify,
        step_views(r.1@) == start_steps(r.0.config),
{
    let project = Project { config: standard_config(project_name, cwd) };
    let steps = project.start();
    (project, steps)
}

} // verus!
