use ring_zipper::uwsm_command::{Invocation, SliceSelector, UnitType, UwsmCommand};

fn strings(words: &[&str]) -> Vec<String> {
    words.iter().map(|w| w.to_string()).collect()
}

fn pairs(entries: &[(&str, &str)]) -> Vec<(String, String)> {
    entries
        .iter()
        .map(|(k, v)| (k.to_string(), v.to_string()))
        .collect()
}

fn assert_plain(invocation: &Invocation) {
    assert!(!invocation.once);
    assert!(!invocation.unique);
    assert!(!invocation.pipe_stdin);
    assert!(!invocation.pipe_stdout);
    assert!(!invocation.pipe_stderr);
}

#[test]
fn a_new_command_has_nothing_set() {
    let invocation = UwsmCommand::new("foot").into_invocation();
    assert_eq!(invocation.shell, strings(&["uwsm", "app", "-a", "foot"]));
    assert_eq!(invocation.command, "foot");
    assert_eq!(invocation.args, Vec::<String>::new());
    assert_eq!(invocation.envs, Vec::<(String, String)>::new());
    assert_plain(&invocation);
}

#[test]
fn the_app_is_named_by_the_file_prefix_of_the_command() {
    let invocation = UwsmCommand::new("/usr/bin/foot.desktop").into_invocation();
    assert_eq!(invocation.shell, strings(&["uwsm", "app", "-a", "foot"]));
    assert_eq!(invocation.command, "/usr/bin/foot.desktop");

    let invocation = UwsmCommand::new("/opt/tools/archive.tar.gz").into_invocation();
    assert_eq!(invocation.shell, strings(&["uwsm", "app", "-a", "archive"]));

    let invocation = UwsmCommand::new(".hidden").into_invocation();
    assert_eq!(invocation.shell, strings(&["uwsm", "app", "-a", ".hidden"]));
}

#[test]
fn a_command_without_a_file_name_names_the_app_itself() {
    let invocation = UwsmCommand::new("..").into_invocation();
    assert_eq!(invocation.shell, strings(&["uwsm", "app", "-a", ".."]));
    let invocation = UwsmCommand::new("").into_invocation();
    assert_eq!(invocation.shell, strings(&["uwsm", "app", "-a", ""]));
}

#[test]
fn a_given_prefix_names_the_app() {
    let invocation =
        UwsmCommand::new("/usr/bin/foot").into_invocation_named(Some("terminal".to_string()));
    assert_eq!(
        invocation.shell,
        strings(&["uwsm", "app", "-a", "terminal"])
    );
    assert_eq!(invocation.command, "/usr/bin/foot");
    let invocation = UwsmCommand::new("/usr/bin/foot").into_invocation_named(None);
    assert_eq!(
        invocation.shell,
        strings(&["uwsm", "app", "-a", "/usr/bin/foot"])
    );
}

#[test]
fn arg_adds_and_args_replaces() {
    let invocation = UwsmCommand::new("rofi")
        .arg("-show")
        .arg("combi")
        .into_invocation();
    assert_eq!(invocation.args, strings(&["-show", "combi"]));

    let invocation = UwsmCommand::new("rofi")
        .arg("-show")
        .args(strings(&["-modes", "emoji"]))
        .arg("-x")
        .into_invocation();
    assert_eq!(invocation.args, strings(&["-modes", "emoji", "-x"]));
    assert_eq!(invocation.shell, strings(&["uwsm", "app", "-a", "rofi"]));
}

#[test]
fn each_flag_sets_itself_only() {
    let invocation = UwsmCommand::new("eww").once().into_invocation();
    assert!(invocation.once);
    assert!(!invocation.unique && !invocation.pipe_stdin);
    assert!(!invocation.pipe_stdout && !invocation.pipe_stderr);

    let invocation = UwsmCommand::new("eww").unique().into_invocation();
    assert!(invocation.unique);
    assert!(!invocation.once && !invocation.pipe_stdin);
    assert!(!invocation.pipe_stdout && !invocation.pipe_stderr);

    let invocation = UwsmCommand::new("eww").pipe_stdin().into_invocation();
    assert!(invocation.pipe_stdin);
    assert!(!invocation.once && !invocation.unique);
    assert!(!invocation.pipe_stdout && !invocation.pipe_stderr);

    let invocation = UwsmCommand::new("eww").pipe_stdout().into_invocation();
    assert!(invocation.pipe_stdout);
    assert!(!invocation.once && !invocation.unique);
    assert!(!invocation.pipe_stdin && !invocation.pipe_stderr);

    let invocation = UwsmCommand::new("eww").pipe_stderr().into_invocation();
    assert!(invocation.pipe_stderr);
    assert!(!invocation.once && !invocation.unique);
    assert!(!invocation.pipe_stdin && !invocation.pipe_stdout);
}

#[test]
fn env_keeps_each_name_once_with_its_last_value() {
    let invocation = UwsmCommand::new("foot")
        .env("A", "1")
        .env("B", "2")
        .env("A", "3")
        .into_invocation();
    assert_eq!(invocation.envs, pairs(&[("A", "3"), ("B", "2")]));
    assert_eq!(invocation.shell, strings(&["uwsm", "app", "-a", "foot"]));
}

#[test]
fn envs_binds_each_pair_in_turn() {
    let invocation = UwsmCommand::new("foot")
        .env("A", "1")
        .envs(pairs(&[("B", "2"), ("A", "3"), ("C", "4"), ("B", "5")]))
        .into_invocation();
    assert_eq!(
        invocation.envs,
        pairs(&[("A", "3"), ("B", "5"), ("C", "4")])
    );
    let invocation = UwsmCommand::new("foot")
        .env("A", "1")
        .envs(Vec::new())
        .into_invocation();
    assert_eq!(invocation.envs, pairs(&[("A", "1")]));
}

#[test]
fn unit_type_and_slice_come_before_the_properties() {
    let invocation = UwsmCommand::new("/usr/bin/firefox")
        .unit_property("Description", "browser")
        .slice_selector(SliceSelector::Background)
        .unit_type(UnitType::Service)
        .unit_property("MemoryMax", "4G")
        .unit_property("Description", "the browser")
        .into_invocation();
    assert_eq!(
        invocation.shell,
        strings(&[
            "uwsm",
            "app",
            "-a",
            "firefox",
            "-t",
            "service",
            "-s",
            "b",
            "-p",
            "Description=the browser",
            "-p",
            "MemoryMax=4G",
        ])
    );
    assert_eq!(invocation.envs, Vec::<(String, String)>::new());
}

#[test]
fn unit_properties_binds_in_bulk() {
    let invocation = UwsmCommand::new("foot")
        .unit_properties(pairs(&[("PartOf", "a.target"), ("CPUQuota", "50%")]))
        .unit_properties(pairs(&[("PartOf", "b.target")]))
        .into_invocation();
    assert_eq!(
        invocation.shell,
        strings(&[
            "uwsm",
            "app",
            "-a",
            "foot",
            "-p",
            "PartOf=b.target",
            "-p",
            "CPUQuota=50%",
        ])
    );
    let invocation = UwsmCommand::new("foot")
        .unit_properties(Vec::new())
        .into_invocation();
    assert_eq!(invocation.shell, strings(&["uwsm", "app", "-a", "foot"]));
}

#[test]
fn every_unit_type_and_slice_has_its_word() {
    assert_eq!(UnitType::Scope.to_string(), "scope");
    assert_eq!(UnitType::Service.to_string(), "service");
    assert_eq!(SliceSelector::App.to_string(), "a");
    assert_eq!(SliceSelector::Background.to_string(), "b");
    assert_eq!(SliceSelector::Session.to_string(), "s");
    assert_eq!(
        SliceSelector::Custom("games.slice".to_string()).to_string(),
        "games.slice"
    );

    let invocation = UwsmCommand::new("steam")
        .unit_type(UnitType::Scope)
        .slice_selector(SliceSelector::Custom("games.slice".to_string()))
        .into_invocation();
    assert_eq!(
        invocation.shell,
        strings(&["uwsm", "app", "-a", "steam", "-t", "scope", "-s", "games.slice"])
    );
    let invocation = UwsmCommand::new("steam")
        .slice_selector(SliceSelector::App)
        .slice_selector(SliceSelector::Session)
        .into_invocation();
    assert_eq!(
        invocation.shell,
        strings(&["uwsm", "app", "-a", "steam", "-s", "s"])
    );
}
