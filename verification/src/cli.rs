//! The commands of the tool: which one the user asked for, how a new project
//! is set up, and what minifying a file involves.
use vstd::prelude::*;
use vstd::string::*;
use crate::paths::{extension, extension_of, file_name, file_name_of, join_path, push_path};
use crate::stdlib::{command_view, install_commands, CommandLine, StdLib};
use crate::config::{config_texts, standard_config_spec};
use crate::project::{auto_project, start_steps, step_views, Project, StartStep};
use crate::wizard::{prompt, Wizard};
use crate::css::{css_minify_checked, css_minify_outcome};
use crate::errors::CatrinaError;
use crate::js::{js_minify_checked, js_minify_outcome, text_view};

verus! {

/// The arguments of the command line.
pub struct CatrinaArgs<'a> {
    /// The command.
    pub action: &'a str,
    /// The first file of a command that takes two.
    pub filepath_1: &'a str,
    /// The second file of a command that takes two.
    pub filepath_2: &'a str,
    /// The file that a command writes.
    pub filename: &'a str,
    /// Whether the setup questions are skipped.
    pub skip: bool,
    /// Whether yarn is used instead of npm.
    pub yarn: bool,
    /// Whether the result is minified.
    pub minify: bool,
}

/// What the tool does for a command line.
#[derive(Debug)]
pub enum ToolAction {
    /// Create a project in the current directory.
    New {
        /// Skip the setup questions.
        skip: bool,
        /// Use yarn instead of npm.
        yarn: bool,
    },
    /// Run the trial server.
    RunServer,
    /// Build the project of the current directory.
    Build,
    /// Tell the user that there is no such command.
    Unknown(String),
}

/// The message for a command that does not exist.
pub open spec fn unknown_message(action: Seq<char>) -> Seq<char> {
    "No such command "@ + action + ". Run catrina --help for more info."@
}

/// The action for the command `action`: `init` creates a project, `run`
/// runs the trial server, `build` builds; anything else is refused with a
/// message.
pub fn catrina_tool(args: &CatrinaArgs) -> (a: ToolAction)
    ensures
        args.action@ == "init"@ ==> a == (ToolAction::New { skip: args.skip, yarn: args.yarn }),
        args.action@ == "run"@ ==> a is RunServer,
        args.action@ == "build"@ ==> a is Build,
        args.action@ != "init"@ && args.action@ != "run"@ && args.action@ != "build"@ ==> (a matches ToolAction::Unknown(m) && m@ == unknown_message(args.action@)),
{
    proof {
        reveal_strlit("init");
        reveal_strlit("run");
        reveal_strlit("build");
        assert("run"@.len() != "init"@.len());
        assert("build"@.len() != "init"@.len());
        assert("build"@.len() != "run"@.len());
    }
    let action = args.action.to_owned();
    if action == "init".to_owned() {
        ToolAction::New { skip: args.skip, yarn: args.yarn }
    } else if action == "run".to_owned() {
        ToolAction::RunServer
    } else if action == "build".to_owned() {
        ToolAction::Build
    } else {
        ToolAction::Unknown(
            String::from_str("No such command ").concat(args.action).concat(
                ". Run catrina --help for more info.",
            ),
        )
    }
}

/// The question that offers the setup wizard.
pub open spec fn wizard_offer() -> Seq<char> {
    "Do you want to start the setup wizard?(y/n)"@
}

/// What creating a project in the current directory starts with.
pub struct NewStart {
    /// The project name: the name of the directory.
    pub name: String,
    /// The directory.
    pub cwd: String,
    /// Whether the setup questions are skipped.
    pub skip: bool,
    /// The commands that install the catrina package, in the order in which
    /// they are run.
    pub commands: Vec<CommandLine>,
    /// The question to put to the user once the package is installed, if
    /// there is one.
    pub question: Option<String>,
}

/// Creating a project in the directory `cwd`: the project is named after
/// the directory, the package is installed with npm unless yarn is asked
/// for, and unless the questions are skipped the user is offered the setup
/// wizard.
pub fn catrina_new(cwd: &str, skip_flag: bool, yarn_flag: bool) -> (r: NewStart)
    requires
        file_name_of(cwd@) is Some,
    ensures
        file_name_of(cwd@) == Some(r.name@),
        r.cwd@ == cwd@,
        r.skip == skip_flag,
        r.commands@.map_values(|c: CommandLine| command_view(c)) == install_commands(!yarn_flag),
        match r.question {
            Some(q) => !skip_flag && q@ == wizard_offer(),
            None => skip_flag,
        },
{
    let name = match file_name(cwd) {
        Some(n) => n,
        None => String::new(),
    };
    let installer = StdLib::new(!yarn_flag);
    let commands = installer.install();
    let question = if skip_flag {
        None
    } else {
        Some("Do you want to start the setup wizard?(y/n)".to_owned())
    };
    NewStart { name, cwd: cwd.to_owned(), skip: skip_flag, commands, question }
}

/// How a new project is set up.
pub enum Setup {
    /// With the standard configuration: the project, and what starting it
    /// does.
    Standard(Project, Vec<StartStep>),
    /// With the answers to the setup wizard: the wizard, and its first
    /// question.
    Wizard(Wizard, String),
}

impl NewStart {
    /// How the project is set up once the user has replied `reply` to the
    /// question (the reply counts for nothing when the questions are
    /// skipped): the setup wizard on `y`; else the project with the standard
    /// configuration, started at once.
    pub fn setup(&self, reply: &str) -> (s: Setup)
        ensures
            (!self.skip && reply@ == "y"@) ==> (s matches Setup::Wizard(w, q) && {
                &&& w.wf()
                &&& w.answered() == 0
                &&& config_texts(w.standard()) == standard_config_spec(self.name@, self.cwd@)
                &&& !w.standard().module
                &&& !w.standard().minify
                &&& w.settings() == w.standard()
                &&& q@ == prompt(0)
            }),
            !(!self.skip && reply@ == "y"@) ==> (s matches Setup::Standard(p, steps) && {
                &&& config_texts(p.config) == standard_config_spec(self.name@, self.cwd@)
                &&& !p.config.module
                &&& !p.config.minify
                &&& step_views(steps@) == start_steps(p.config)
            }),
    {
        if !self.skip && reply.to_owned() == "y".to_owned() {
            let (w, q) = Wizard::new(self.name.as_str(), self.cwd.as_str());
            Setup::Wizard(w, q)
        } else {
            let (p, steps) = auto_project(self.name.as_str(), self.cwd.as_str());
            Setup::Standard(p, steps)
        }
    }
}

/// The kinds of file that can be minified.
#[derive(Debug, PartialEq, Eq)]
pub enum MinifyKind {
    /// A stylesheet.
    Css,
    /// A script.
    Js,
}

/// What minifying the file at `origin_path` into `final_path` involves: the
/// file name and extension of the origin, the place where the copy goes
/// (`final_path`, or the current directory `cwd` when it is empty), and the
/// kind of minifier that the extension asks for.
pub struct MinifyPlan {
    /// The file name of the origin, if it has one.
    pub filename: Option<String>,
    /// The extension of the origin, if it has one.
    pub extension: Option<String>,
    /// Where the copy goes: a file, or a directory to hold it.
    pub target: String,
    /// The minifier for the extension: `css` or `js`.
    pub kind: Option<MinifyKind>,
}

/// The minifier that an extension asks for.
pub open spec fn minify_kind(ext: Option<Seq<char>>) -> Option<MinifyKind> {
    match ext {
        Some(e) => if e == "css"@ {
            Some(MinifyKind::Css)
        } else if e == "js"@ {
            Some(MinifyKind::Js)
        } else {
            None
        },
        None => None,
    }
}

/// What minifying `origin_path` into `final_path` involves, from the
/// directory `cwd` (see `MinifyPlan`).
pub fn catrina_minify(origin_path: &str, final_path: &str, cwd: &str) -> (p: MinifyPlan)
    ensures
        match p.filename {
            Some(n) => file_name_of(origin_path@) == Some(n@),
            None => file_name_of(origin_path@) is None,
        },
        match p.extension {
            Some(e) => extension_of(origin_path@) == Some(e@),
            None => extension_of(origin_path@) is None,
        },
        p.target@ == if final_path@.len() == 0 {
            cwd@
        } else {
            final_path@
        },
        p.kind == minify_kind(extension_of(origin_path@)),
{
    let filename = file_name(origin_path);
    let ext = extension(origin_path);
    let target = if final_path.is_empty() {
        cwd.to_owned()
    } else {
        final_path.to_owned()
    };
    let kind = match &ext {
        Some(e) => {
            if *e == "css".to_owned() {
                Some(MinifyKind::Css)
            } else if *e == "js".to_owned() {
                Some(MinifyKind::Js)
            } else {
                None
            }
        },
        None => None,
    };
    MinifyPlan { filename, extension: ext, target, kind }
}

/// The copy of a minified file inside the directory `dir`: `min.` and the
/// original file name.
pub fn minified_copy_path(dir: &str, filename: &str) -> (p: String)
    ensures
        p@ == push_path(dir@, "min."@ + filename@),
{
    let name = String::from_str("min.").concat(filename);
    join_path(dir, name.as_str())
}

/// The text of a minified file of the given kind, or why it cannot be
/// minified.
pub fn minify_content(kind: &MinifyKind, content: &str) -> (r: Result<String, CatrinaError>)
    ensures
        text_view(r) == match *kind {
            MinifyKind::Css => css_minify_outcome(content@),
            MinifyKind::Js => js_minify_outcome(content@),
        },
{
    match kind {
        MinifyKind::Css => css_minify_checked(content),
        MinifyKind::Js => js_minify_checked(content),
    }
}

} // verus!
