//! The setup wizard: it asks for the project settings one after another,
//! and stops early when the user types `exit`.
use vstd::prelude::*;
use vstd::string::*;
use crate::config::{config_texts, standard_config, standard_config_spec, Config};

verus! {

/// The number of settings that the wizard asks for.
pub open spec fn wizard_len() -> int {
    6
}

/// The setting that question `k` asks for: the deploy path, the JavaScript
/// bundle name, the CSS bundle name, the JavaScript entry file, the CSS entry
/// file, the port of the trial server.
pub open spec fn field(c: Config, k: int) -> Seq<char> {
    if k == 0 {
        c.deploy_path@
    } else if k == 1 {
        c.out_js@
    } else if k == 2 {
        c.out_css@
    } else if k == 3 {
        c.input_js@
    } else if k == 4 {
        c.input_css@
    } else {
        c.server_port@
    }
}

/// The question for setting `k`, with the hint about `exit`.
pub open spec fn prompt(k: int) -> Seq<char> {
    (if k == 0 {
        "Set deploy path:"@
    } else if k == 1 {
        "Set final javascript filename:"@
    } else if k == 2 {
        "Set final css filename:"@
    } else if k == 3 {
        "Set path of input javascript filename:"@
    } else if k == 4 {
        "Set path of input css filename:"@
    } else {
        "Set port of trial server:"@
    }) + "(type 'exit' to close)"@
}

/// Each question of the wizard names the setting that its answer becomes:
/// the deploy path, the JavaScript bundle name, the CSS bundle name, the
/// JavaScript entry file, the CSS entry file, the port of the trial server.
pub proof fn law_question_names_setting(c: Config)
    ensures
        prompt(0) == "Set deploy path:"@ + "(type 'exit' to close)"@ && field(c, 0)
            == c.deploy_path@,
        prompt(1) == "Set final javascript filename:"@ + "(type 'exit' to close)"@ && field(c, 1)
            == c.out_js@,
        prompt(2) == "Set final css filename:"@ + "(type 'exit' to close)"@ && field(c, 2)
            == c.out_css@,
        prompt(3) == "Set path of input javascript filename:"@ + "(type 'exit' to close)"@ && field(
            c,
            3,
        ) == c.input_js@,
        prompt(4) == "Set path of input css filename:"@ + "(type 'exit' to close)"@ && field(c, 4)
            == c.input_css@,
        prompt(5) == "Set port of trial server:"@ + "(type 'exit' to close)"@ && field(c, 5)
            == c.server_port@,
{
}

/// What the wizard asks the caller to do next.
#[derive(Debug)]
pub enum WizardAction {
    /// Show this question and hand back the user's answer.
    Ask(String),
    /// The settings are done: start the project with them.
    Start,
}

/// The wizard in progress: the settings so far, the standard ones, and the
/// number of questions answered.
pub struct Wizard {
    config: Config,
    standard: Config,
    step: usize,
}

impl Wizard {
    /// The settings so far.
    pub closed spec fn settings(&self) -> Config {
        self.config
    }

    /// The standard settings of the project.
    pub closed spec fn standard(&self) -> Config {
        self.standard
    }

    /// The number of questions answered.
    pub closed spec fn answered(&self) -> int {
        self.step as int
    }

    /// Whether the wizard has finished: every question has been answered.
    pub open spec fn finished(&self) -> bool {
        self.answered() >= wizard_len()
    }

    /// The wizard's invariant, kept by every value of the type.
    #[verifier::type_invariant]
    spec fn keeps_standard(&self) -> bool {
        self.wf()
    }

    /// Whether the wizard has finished.
    pub fn is_finished(&self) -> (b: bool)
        ensures
            b == self.finished(),
    {
        self.step >= 6
    }

    /// The wizard's invariant: the settings not yet asked for, and those it
    /// never asks for, are the standard ones.
    pub open spec fn wf(&self) -> bool {
        &&& 0 <= self.answered() <= wizard_len()
        &&& forall|k: int| self.answered() <= k < wizard_len() ==> field(self.settings(), k) == field(
            self.standard(),
            k,
        )
        &&& self.settings().location_lib@ == self.standard().location_lib@
        &&& self.settings().module == self.standard().module
        &&& self.settings().minify == self.standard().minify
    }

    /// The wizard for a project named `project_name` in the directory
    /// `cwd`, starting from the standard settings, and its first question.
    pub fn new(project_name: &str, cwd: &str) -> (r: (Wizard, String))
        ensures
            r.0.wf(),
            r.0.answered() == 0,
            !r.0.finished(),
            config_texts(r.0.standard()) == standard_config_spec(project_name@, cwd@),
            !r.0.standard().module,
            !r.0.standard().minify,
            r.0.settings() == r.0.standard(),
            r.1@ == prompt(0),
    {
        let config = standard_config(project_name, cwd);
        let standard = config.copy();
        let w = Wizard { config, standard, step: 0 };
        (w, Wizard::prompt_for(0))
    }

    /// The settings so far.
    pub fn config(&self) -> (c: &Config)
        ensures
            *c == self.settings(),
    {
        &self.config
    }

    /// The question for setting `k`.
    fn prompt_for(k: usize) -> (p: String)
        requires
            k < 6,
        ensures
            p@ == prompt(k as int),
    {
        let head = if k == 0 {
            "Set deploy path:"
        } else if k == 1 {
            "Set final javascript filename:"
        } else if k == 2 {
            "Set final css filename:"
        } else if k == 3 {
            "Set path of input javascript filename:"
        } else if k == 4 {
            "Set path of input css filename:"
        } else {
            "Set port of trial server:"
        };
        String::from_str(head).concat("(type 'exit' to close)")
    }

    /// The wizard after the user answers the current question: the setting
    /// becomes the answer, or the standard value when the answer is `exit`.
    /// After `exit`, or after the last question, the project is started;
    /// otherwise the next question is asked.
    pub fn answer(&mut self, response: &str) -> (action: WizardAction)
        requires
            !old(self).finished(),
        ensures
            final(self).wf(),
            final(self).standard() == old(self).standard(),
            final(self).answered() == old(self).answered() + 1,
            field(final(self).settings(), old(self).answered()) == if response@ == "exit"@ {
                field(old(self).standard(), old(self).answered())
            } else {
                response@
            },
            forall|k: int|
                0 <= k < wizard_len() && k != old(self).answered() ==> field(final(self).settings(), k)
                    == field(old(self).settings(), k),
            (response@ == "exit"@ || old(self).answered() == wizard_len() - 1) ==> action is Start,
            !(response@ == "exit"@ || old(self).answered() == wizard_len() - 1) ==> (action matches WizardAction::Ask(q)
                && q@ == prompt(old(self).answered() + 1)),
            ({
                let k = old(self).answered();
                let exit = response@ == "exit"@;
                let now = final(self).settings();
                let std = old(self).standard();
                &&& k == 0 ==> now.deploy_path@ == if exit { std.deploy_path@ } else { response@ }
                &&& k == 1 ==> now.out_js@ == if exit { std.out_js@ } else { response@ }
                &&& k == 2 ==> now.out_css@ == if exit { std.out_css@ } else { response@ }
                &&& k == 3 ==> now.input_js@ == if exit { std.input_js@ } else { response@ }
                &&& k == 4 ==> now.input_css@ == if exit { std.input_css@ } else { response@ }
                &&& k == 5 ==> now.server_port@ == if exit { std.server_port@ } else { response@ }
            }),
            action is Start ==> forall|k: int|
                old(self).answered() < k < wizard_len() ==> field(final(self).settings(), k) == field(
                    final(self).standard(),
                    k,
                ),
    {
        proof {
            use_type_invariant(&*self);
        }
        let k: usize = self.step;
        let exit = response.to_owned() == "exit".to_owned();
        let value = if exit {
            if k == 0 {
                self.standard.deploy_path.clone()
            } else if k == 1 {
                self.standard.out_js.clone()
            } else if k == 2 {
                self.standard.out_css.clone()
            } else if k == 3 {
                self.standard.input_js.clone()
            } else if k == 4 {
                self.standard.input_css.clone()
            } else {
                self.standard.server_port.clone()
            }
        } else {
            response.to_owned()
        };
        let mut c = self.config.copy();
        if k == 0 {
            c.deploy_path = value;
        } else if k == 1 {
            c.out_js = value;
        } else if k == 2 {
            c.out_css = value;
        } else if k == 3 {
            c.input_js = value;
        } else if k == 4 {
            c.input_css = value;
        } else {
            c.server_port = value;
        }
        self.step = k + 1;
        self.config = c;
        if exit || k == 5 {
            WizardAction::Start
        } else {
            WizardAction::Ask(Wizard::prompt_for(k + 1))
        }
    }
}

} // verus!
