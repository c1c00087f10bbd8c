use test_readme::{apply_extra_flags, build_outcome, recipe_from_markdown, Dockerfile, Error, Options};

#[test]
fn flag_is_spliced_after_prefix() {
    let mut options = Options::new();
    options.flag("apt-get", "-y");
    let mut cmds = vec!["apt-get install foo".to_string()];
    apply_extra_flags(options.rules(), &mut cmds);
    assert_eq!(cmds, vec!["apt-get -y install foo"]);
}

#[test]
fn flags_for_one_tool_accumulate() {
    let mut options = Options::default();
    options.flag("apt-get", "-y").flag("apt-get", "--no-install-recommends");
    assert_eq!(
        options.rules(),
        &vec![("apt-get".to_string(), " -y --no-install-recommends".to_string())]
    );
    let mut cmds = vec!["apt-get install foo".to_string()];
    apply_extra_flags(options.rules(), &mut cmds);
    assert_eq!(cmds, vec!["apt-get -y --no-install-recommends install foo"]);
}

#[test]
fn commands_without_prefix_are_unchanged() {
    let mut options = Options::new();
    options.flag("apt-get", "-y");
    let mut cmds = vec![
        "apt".to_string(),
        "echo apt-get".to_string(),
        "".to_string(),
        "apt-get update".to_string(),
    ];
    apply_extra_flags(options.rules(), &mut cmds);
    assert_eq!(cmds, vec!["apt", "echo apt-get", "", "apt-get -y update"]);
}

#[test]
fn several_rules_apply_in_order() {
    let mut options = Options::new();
    options.flag("pip", "-q").flag("pip install", "--user");
    let mut cmds = vec!["pip install x".to_string(), "pip list".to_string()];
    apply_extra_flags(options.rules(), &mut cmds);
    // "pip install x" becomes "pip -q install x", which no longer begins with "pip install".
    assert_eq!(cmds, vec!["pip -q install x", "pip -q list"]);
}

#[test]
fn recipe_renders_exactly() {
    let d = Dockerfile {
        base: "debian:buster".to_string(),
        commands: vec!["apt-get update".to_string(), "apt-get install -y curl".to_string()],
    };
    assert_eq!(
        d.render(),
        "FROM debian:buster\nRUN apt-get update\nRUN apt-get install -y curl\n"
    );
}

#[test]
fn recipe_without_commands() {
    let d = Dockerfile { base: "alpine".to_string(), commands: vec![] };
    assert_eq!(d.render(), "FROM alpine\n");
}

#[test]
fn build_failure_carries_exit_status() {
    assert!(matches!(build_outcome(false, Some(1)), Err(Error::DockerBuild(Some(1)))));
    assert!(matches!(build_outcome(false, None), Err(Error::DockerBuild(None))));
    assert!(build_outcome(true, Some(0)).is_ok());
}

#[test]
fn markdown_to_recipe_end_to_end() {
    let md = "# Install\n\n```\napt-get install -y vim\n```\n";
    let r = recipe_from_markdown("debian:buster", &Options::new(), md).unwrap();
    assert_eq!(r, "FROM debian:buster\nRUN apt-get install -y vim\n");
}

#[test]
fn markdown_to_recipe_with_flags() {
    let md = "Setup:\n\n```\napt-get update\napt-get install vim\n```\n";
    let mut options = Options::new();
    options.flag("apt-get", "-y");
    let r = recipe_from_markdown("debian:buster", &options, md).unwrap();
    assert_eq!(r, "FROM debian:buster\nRUN apt-get -y update\nRUN apt-get -y install vim\n");
}
