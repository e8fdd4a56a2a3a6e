//! Installing the catrina package into a new project.
use vstd::prelude::*;
use vstd::string::*;
use crate::text::string_views;

verus! {

/// How the catrina package is installed: with npm, or else with yarn.
pub struct StdLib {
    npm: bool,
}

/// A program to run and its arguments.
pub struct CommandLine {
    /// The program.
    pub program: String,
    /// Its arguments, in order.
    pub args: Vec<String>,
}

/// A command line as plain text.
pub open spec fn command_view(c: CommandLine) -> (Seq<char>, Seq<Seq<char>>) {
    (c.program@, string_views(c.args@))
}

/// The commands that install the package, in order: `npm init -y` and
/// `npm install --save catrina` with npm, `yarn init -y` and
/// `yarn add catrina` with yarn.
pub open spec fn install_commands(npm: bool) -> Seq<(Seq<char>, Seq<Seq<char>>)> {
    if npm {
        seq![
            ("npm"@, seq!["init"@, "-y"@]),
            ("npm"@, seq!["install"@, "--save"@, "catrina"@]),
        ]
    } else {
        seq![("yarn"@, seq!["init"@, "-y"@]), ("yarn"@, seq!["add"@, "catrina"@])]
    }
}

/// A list of strings.
fn strings(items: &[&str]) -> (v: Vec<String>)
    ensures
        string_views(v@) == items@.map_values(|x: &str| x@),
{
    let mut v: Vec<String> = Vec::new();
    let mut i: usize = 0;
    while i < items.len()
        invariant
            i <= items@.len(),
            string_views(v@) == items@.take(i as int).map_values(|x: &str| x@),
        decreases items@.len() - i,
    {
        let ghost before = v@;
        let s = items[i].to_owned();
        v.push(s);
        assert(string_views(v@) =~= string_views(before).push(s@));
        assert(items@.take(i + 1).map_values(|x: &str| x@) =~= items@.take(i as int).map_values(
            |x: &str| x@,
        ).push(items@[i as int]@));
        i = i + 1;
    }
    assert(items@.take(items@.len() as int) =~= items@);
    v
}

impl StdLib {
    /// Installation with npm when `default` is set, with yarn otherwise.
    pub fn new(default: bool) -> (s: StdLib)
        ensures
            s.uses_npm() == default,
    {
        StdLib { npm: default }
    }

    /// Whether npm is used.
    pub closed spec fn uses_npm(&self) -> bool {
        self.npm
    }

    /// The commands that install the catrina package, in the order in which
    /// they are run.
    pub fn install(&self) -> (cmds: Vec<CommandLine>)
        ensures
            cmds@.map_values(|c: CommandLine| command_view(c)) == install_commands(self.uses_npm()),
    {
        let mut cmds: Vec<CommandLine> = Vec::new();
        let init: [&str; 2] = ["init", "-y"];
        if self.npm {
            let install: [&str; 3] = ["install", "--save", "catrina"];
            let a = strings(&init);
            let b = strings(&install);
            assert(init@.map_values(|x: &str| x@) =~= seq!["init"@, "-y"@]);
            assert(install@.map_values(|x: &str| x@) =~= seq!["install"@, "--save"@, "catrina"@]);
            cmds.push(CommandLine { program: "npm".to_owned(), args: a });
            cmds.push(CommandLine { program: "npm".to_owned(), args: b });
        } else {
            let add: [&str; 2] = ["add", "catrina"];
            let a = strings(&init);
            let b = strings(&add);
            assert(init@.map_values(|x: &str| x@) =~= seq!["init"@, "-y"@]);
            assert(add@.map_values(|x: &str| x@) =~= seq!["add"@, "catrina"@]);
            cmds.push(CommandLine { program: "yarn".to_owned(), args: a });
            cmds.push(CommandLine { program: "yarn".to_owned(), args: b });
        }
        assert(cmds@.map_values(|c: CommandLine| command_view(c)) =~= install_commands(self.npm));
        cmds
    }
}

} // verus!
