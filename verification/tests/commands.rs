use catrina::cli::{
    catrina_minify, catrina_new, catrina_tool, minified_copy_path, minify_content, CatrinaArgs,
    MinifyKind, Setup, ToolAction,
};
use catrina::errors::CatrinaError;
use catrina::stdlib::StdLib;
use catrina::wizard::{Wizard, WizardAction};

fn args(action: &str) -> CatrinaArgs<'_> {
    CatrinaArgs {
        action,
        filepath_1: "",
        filepath_2: "",
        filename: "",
        skip: true,
        yarn: false,
        minify: false,
    }
}

#[test]
fn catrina_tool_dispatches_commands() {
    assert!(matches!(catrina_tool(&args("init")), ToolAction::New { skip: true, yarn: false }));
    assert!(matches!(catrina_tool(&args("run")), ToolAction::RunServer));
    assert!(matches!(catrina_tool(&args("build")), ToolAction::Build));
    match catrina_tool(&args("serve")) {
        ToolAction::Unknown(m) => {
            assert_eq!(m, "No such command serve. Run catrina --help for more info.")
        },
        _ => panic!("expected an unknown command"),
    }
}

#[test]
fn install_commands_for_npm_and_yarn() {
    let npm = StdLib::new(true).install();
    assert_eq!(npm[0].program, "npm");
    assert_eq!(npm[0].args, vec!["init", "-y"]);
    assert_eq!(npm[1].args, vec!["install", "--save", "catrina"]);
    let yarn = catrina_new("/w/demo", true, true).commands;
    assert_eq!(yarn[0].program, "yarn");
    assert_eq!(yarn[1].args, vec!["add", "catrina"]);
}

#[test]
fn catrina_new_names_project_after_directory() {
    let start = catrina_new("/home/user/My-Project", true, false);
    assert_eq!(start.name, "My-Project");
    assert_eq!(start.commands[0].program, "npm");
    assert!(start.question.is_none());
    match start.setup("y") {
        Setup::Standard(p, steps) => {
            assert_eq!(p.config.out_js, "My-Project.main.js");
            assert_eq!(p.config.out_css, "My-Project.styles.css");
            assert_eq!(p.config.location_lib, "/home/user/My-Project/node_modules/catrina");
            assert_eq!(steps.len(), 7);
        },
        Setup::Wizard(..) => panic!("skipped questions give the standard project"),
    }
}

#[test]
fn catrina_new_offers_the_wizard() {
    let start = catrina_new("/w/demo", false, true);
    assert_eq!(start.question.as_deref(), Some("Do you want to start the setup wizard?(y/n)"));
    assert_eq!(start.commands[0].program, "yarn");
    match start.setup("y") {
        Setup::Wizard(w, q) => {
            assert_eq!(q, "Set deploy path:(type 'exit' to close)");
            assert_eq!(w.config().out_js, "demo.main.js");
        },
        Setup::Standard(..) => panic!("a yes runs the wizard"),
    }
    match start.setup("n") {
        Setup::Standard(p, _) => assert_eq!(p.config.out_js, "demo.main.js"),
        Setup::Wizard(..) => panic!("anything but yes gives the standard project"),
    }
}

#[test]
fn wizard_asks_each_setting() {
    let (mut w, first) = Wizard::new("demo", "/w");
    assert_eq!(first, "Set deploy path:(type 'exit' to close)");
    let answers = ["dist", "a.js", "a.css", "src/in.js", "src/in.css", ":8000"];
    for (k, a) in answers.iter().enumerate() {
        let action = w.answer(a);
        if k < 5 {
            assert!(matches!(action, WizardAction::Ask(_)));
        } else {
            assert!(matches!(action, WizardAction::Start));
        }
    }
    let c = w.config();
    assert_eq!(c.deploy_path, "dist");
    assert_eq!(c.out_js, "a.js");
    assert_eq!(c.server_port, ":8000");
}

#[test]
fn wizard_exit_keeps_standard_settings() {
    let (mut w, _) = Wizard::new("demo", "/w");
    match w.answer("dist") {
        WizardAction::Ask(q) => assert_eq!(q, "Set final javascript filename:(type 'exit' to close)"),
        _ => panic!("expected a question"),
    }
    assert!(matches!(w.answer("exit"), WizardAction::Start));
    let c = w.config();
    assert_eq!(c.deploy_path, "dist");
    assert_eq!(c.out_js, "demo.main.js");
    assert_eq!(c.out_css, "demo.styles.css");
    assert_eq!(c.server_port, ":9095");
}

#[test]
fn minify_plan_and_target() {
    let p = catrina_minify("src/app.css", "", "/w");
    assert_eq!(p.filename, Some("app.css".to_string()));
    assert_eq!(p.extension, Some("css".to_string()));
    assert_eq!(p.target, "/w");
    assert_eq!(p.kind, Some(MinifyKind::Css));
    let q = catrina_minify("src/readme.md", "out", "/w");
    assert_eq!(q.kind, None);
    assert_eq!(q.target, "out");
    assert_eq!(minified_copy_path("/w", "app.css"), "/w/min.app.css");
    let css = minify_content(&MinifyKind::Css, "a {\n  color: red;\n}\n").unwrap();
    assert!(css.len() < "a {\n  color: red;\n}\n".len());
    assert!(matches!(minify_content(&MinifyKind::Css, "a } }"), Err(CatrinaError::MinifyRefused)));
    assert!(matches!(minify_content(&MinifyKind::Css, "/*é"), Err(CatrinaError::MinifyUnsafe)));
    assert!(matches!(minify_content(&MinifyKind::Js, "x = 1; //é"), Err(CatrinaError::MinifyUnsafe)));
    assert!(minify_content(&MinifyKind::Js, "var a = 1;\n// é\n").is_ok());
}
