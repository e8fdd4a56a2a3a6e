//! The project configuration, as `catrina.config.json` holds it.
use vstd::prelude::*;
use vstd::string::*;
use crate::paths::{join_path, push_path};

verus! {

/// Where a project's sources are, where its bundles go, and how they are
/// made.
#[derive(Clone, Debug)]
pub struct Config {
    /// The JavaScript entry file.
    pub input_js: String,
    /// The CSS entry file.
    pub input_css: String,
    /// The directory that receives the bundles.
    pub deploy_path: String,
    /// The file name of the JavaScript bundle.
    pub out_js: String,
    /// The file name of the CSS bundle.
    pub out_css: String,
    /// The port of the trial server.
    pub server_port: String,
    /// Where the catrina package is installed.
    pub location_lib: String,
    /// Whether the JavaScript bundle keeps its `export` statements.
    pub module: bool,
    /// Whether the bundles are minified.
    pub minify: bool,
}

/// The configuration of a new project named `project_name` whose directory
/// is `cwd`, before the user changes anything.
pub open spec fn standard_config_spec(project_name: Seq<char>, cwd: Seq<char>) -> (
    Seq<char>,
    Seq<char>,
    Seq<char>,
    Seq<char>,
    Seq<char>,
    Seq<char>,
    Seq<char>,
) {
    (
        "input.js"@,
        "input.css"@,
        "deploy"@,
        project_name + ".main.js"@,
        project_name + ".styles.css"@,
        ":9095"@,
        push_path(cwd, "node_modules/catrina"@),
    )
}

/// The text fields of a configuration, in the order of `standard_config_spec`.
pub open spec fn config_texts(c: Config) -> (
    Seq<char>,
    Seq<char>,
    Seq<char>,
    Seq<char>,
    Seq<char>,
    Seq<char>,
    Seq<char>,
) {
    (
        c.input_js@,
        c.input_css@,
        c.deploy_path@,
        c.out_js@,
        c.out_css@,
        c.server_port@,
        c.location_lib@,
    )
}

impl Config {
    /// A copy of the configuration.
    pub fn copy(&self) -> (c: Config)
        ensures
            c == *self,
    {
        Config {
            input_js: self.input_js.clone(),
            input_css: self.input_css.clone(),
            deploy_path: self.deploy_path.clone(),
            out_js: self.out_js.clone(),
            out_css: self.out_css.clone(),
            server_port: self.server_port.clone(),
            location_lib: self.location_lib.clone(),
            module: self.module,
            minify: self.minify,
        }
    }

    /// The path of the JavaScript bundle: the output name inside the deploy
    /// directory.
    pub fn out_js_path_buf(&self) -> (p: String)
        ensures
            p@ == push_path(self.deploy_path@, self.out_js@),
    {
        join_path(self.deploy_path.as_str(), self.out_js.as_str())
    }

    /// The path of the CSS bundle: the output name inside the deploy
    /// directory.
    pub fn out_css_path_buf(&self) -> (p: String)
        ensures
            p@ == push_path(self.deploy_path@, self.out_css@),
    {
        join_path(self.deploy_path.as_str(), self.out_css.as_str())
    }
}

/// The configuration of a new project named `project_name` in the directory
/// `cwd`: entry files `input.js` and `input.css`, bundles named after the
/// project in `deploy`, the trial server on `:9095`, the library under
/// `node_modules/catrina`, no module output and no minifying.
pub fn standard_config(project_name: &str, cwd: &str) -> (c: Config)
    ensures
        config_texts(c) == standard_config_spec(project_name@, cwd@),
        !c.module,
        !c.minify,
{
    let out_js = String::from_str(project_name).concat(".main.js");
    let out_css = String::from_str(project_name).concat(".styles.css");
    Config {
        input_js: "input.js".to_owned(),
        input_css: "input.css".to_owned(),
        deploy_path: "deploy".to_owned(),
        out_js,
        out_css,
        server_port: ":9095".to_owned(),
        location_lib: join_path(cwd, "node_modules/catrina"),
        module: false,
        minify: false,
    }
}

} // verus!
