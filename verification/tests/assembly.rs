use doa::docker::conf::v1_0::{Action, Context, Version};
use doa::docker::conf::{self, fill, Actions, Help, Run, Slot};
use doa::docker::fmt::InterpolationError;
use doa::docker::DockerRun;

fn strings(words: &[&str]) -> Vec<String> {
    words.iter().map(|w| w.to_string()).collect()
}

fn never(_: &str) -> Result<String, InterpolationError> {
    panic!("no expression expected")
}

fn echo(expr: &str) -> Result<String, InterpolationError> {
    Ok(format!("<{}>", expr))
}

fn make_dockerrun(image: &str) -> Action {
    Action { context: Context::Image(image.to_string()), ..Action::default() }
}

#[test]
fn v1_0_test_run() {
    let mut dr = make_dockerrun("clux/muslrust:stable");
    dr.command = Some(vec!["cargo".to_string(), "--version".to_string()]);

    let args = dr.run(&Vec::new(), &never).unwrap();
    assert_eq!(args, strings(&["run", "--rm", "clux/muslrust:stable", "cargo", "--version"]));
}

#[test]
fn docker_test_run() {
    let dr = DockerRun {
        image: "clux/muslrust:stable".to_string(),
        help: None,
        command: Some(vec!["cargo".to_string(), "--version".to_string()]),
        entrypoint: None,
        envs: None,
        env_file: None,
    };

    assert_eq!(dr.run(), strings(&["run", "--rm", "clux/muslrust:stable", "cargo", "--version"]));
}

#[test]
fn plain_run_writes_flag_and_value_as_two_words() {
    let dr = DockerRun {
        image: "alpine".to_string(),
        help: Some("a shell".to_string()),
        command: None,
        entrypoint: Some(vec!["ignored".to_string()]),
        envs: Some(vec![("A".to_string(), "1".to_string()), ("B".to_string(), "2".to_string())]),
        env_file: Some("vars.env".to_string()),
    };
    assert_eq!(
        dr.run(),
        strings(&["run", "--rm", "-e", "A=1", "-e", "B=2", "--env-file", "vars.env", "alpine"])
    );
}

#[test]
fn plain_run_of_every_field() {
    let dr = DockerRun {
        image: "alpine:3.18".to_string(),
        help: None,
        command: Some(strings(&["echo", "hi"])),
        entrypoint: None,
        envs: Some(vec![("FOO".to_string(), "bar".to_string())]),
        env_file: Some("e.env".to_string()),
    };
    assert_eq!(
        dr.run(),
        strings(&["run", "--rm", "-e", "FOO=bar", "--env-file", "e.env", "alpine:3.18", "echo", "hi"])
    );
}

#[test]
fn plain_run_takes_texts_as_written() {
    let dr = DockerRun {
        image: "img".to_string(),
        help: None,
        command: Some(strings(&["#{x}", "##"])),
        entrypoint: None,
        envs: Some(Vec::new()),
        env_file: None,
    };
    assert_eq!(dr.run(), strings(&["run", "--rm", "img", "#{x}", "##"]));
}

#[test]
fn flags_come_in_the_fixed_order() {
    let mut action = make_dockerrun("img");
    action.entrypoint = Some("/bin/sh".to_string());
    action.network = Some("host".to_string());
    action.ports = Some(strings(&["8080:80", "9090:90"]));
    action.user = Some("root".to_string());
    action.extra_flags = Some(strings(&["--cap-add=ALL"]));
    action.command = Some(strings(&["ls", "-l"]));

    let args = action.run(&Vec::new(), &never).unwrap();
    assert_eq!(
        args,
        strings(&[
            "run", "--rm", "--entrypoint", "/bin/sh", "--network=host", "-p", "8080:80", "-p",
            "9090:90", "-u", "root", "--cap-add=ALL", "img", "ls", "-l",
        ])
    );
}

#[test]
fn every_field_has_its_place() {
    let action = Action {
        context: Context::Image("img:1".to_string()),
        help: Some("not a flag".to_string()),
        interactive: Some(true),
        tty: Some(true),
        command: Some(strings(&["c1", "c2"])),
        entrypoint: Some("ep".to_string()),
        envs: Some(vec![("K1".to_string(), "v1".to_string()), ("K2".to_string(), "v2".to_string())]),
        env_file: Some("file.env".to_string()),
        network: Some("net".to_string()),
        ports: Some(strings(&["1:1"])),
        volumes: Some(strings(&["/a:/b", "/c:/d"])),
        user: Some("me".to_string()),
        extra_flags: Some(strings(&["--x", "--y"])),
    };
    let args = action.run(&Vec::new(), &never).unwrap();
    assert_eq!(
        args,
        strings(&[
            "run", "--rm", "--entrypoint", "ep", "-e", "K1=v1", "-e", "K2=v2", "--env-file",
            "file.env", "--network=net", "-p", "1:1", "-v", "/a:/b", "-v", "/c:/d", "-u", "me",
            "--x", "--y", "img:1", "c1", "c2",
        ])
    );
}

#[test]
fn unset_fields_leave_no_flag() {
    let args = make_dockerrun("alpine").run(&Vec::new(), &never).unwrap();
    assert_eq!(args, strings(&["run", "--rm", "alpine"]));
    for flag in ["--entrypoint", "-e", "--env-file", "-p", "-v", "-u"] {
        assert!(!args.iter().any(|a| a == flag));
    }
    assert!(!args.iter().any(|a| a.starts_with("--network=")));
}

#[test]
fn empty_lists_leave_no_flag() {
    let mut action = make_dockerrun("alpine");
    action.envs = Some(Vec::new());
    action.ports = Some(Vec::new());
    action.volumes = Some(Vec::new());
    action.extra_flags = Some(Vec::new());
    action.command = Some(Vec::new());
    assert_eq!(action.run(&Vec::new(), &never).unwrap(), strings(&["run", "--rm", "alpine"]));
}

#[test]
fn build_gives_exactly_the_build_line() {
    let action = Action {
        context: Context::Build { path: "docker/Dockerfile".to_string(), name: "me/img:dev".to_string() },
        help: None,
        interactive: Some(true),
        tty: Some(true),
        command: Some(strings(&["#{false}"])),
        entrypoint: Some("#{false}".to_string()),
        envs: Some(vec![("A".to_string(), "#{false}".to_string())]),
        env_file: Some("x".to_string()),
        network: Some("host".to_string()),
        ports: Some(strings(&["1:1"])),
        volumes: Some(strings(&["/a:/b"])),
        user: Some("root".to_string()),
        extra_flags: Some(strings(&["--privileged"])),
    };
    let args = action.run(&Vec::new(), &never).unwrap();
    assert_eq!(args, strings(&["build", "-f", "docker/Dockerfile", "-t", "me/img:dev"]));
}

#[test]
fn fields_are_interpolated_in_flag_order() {
    let calls = std::cell::RefCell::new(Vec::new());
    let f = |expr: &str| {
        calls.borrow_mut().push(expr.to_string());
        Ok(format!("<{}>", expr))
    };
    let action = Action {
        context: Context::Image("#{image}".to_string()),
        help: Some("#{help}".to_string()),
        interactive: None,
        tty: None,
        command: Some(strings(&["#{c1}", "#{c2}"])),
        entrypoint: Some("#{ep}".to_string()),
        envs: Some(vec![("#{k}".to_string(), "#{v}".to_string())]),
        env_file: Some("#{file}".to_string()),
        network: Some("#{net}".to_string()),
        ports: Some(strings(&["#{p}"])),
        volumes: Some(strings(&["#{vol}"])),
        user: Some("#{user}".to_string()),
        extra_flags: Some(strings(&["#{extra}"])),
    };
    let args = action.run(&Vec::new(), &f).unwrap();
    assert_eq!(
        args,
        strings(&[
            "run", "--rm", "--entrypoint", "<ep>", "-e", "<k>=<v>", "--env-file", "<file>",
            "--network=<net>", "-p", "<p>", "-v", "<vol>", "-u", "<user>", "<extra>", "<image>",
            "<c1>", "<c2>",
        ])
    );
    assert_eq!(
        *calls.borrow(),
        strings(&["ep", "k", "v", "file", "net", "p", "vol", "user", "extra", "image", "c1", "c2"])
    );
}

#[test]
fn variable_is_interpolated_as_one_text() {
    let mut action = make_dockerrun("img");
    action.envs = Some(vec![("A#{x".to_string(), "y}B".to_string())]);
    assert_eq!(action.run(&Vec::new(), &echo).unwrap(), strings(&["run", "--rm", "-e", "A<x=y>B", "img"]));
}

#[test]
fn failing_field_gives_no_arguments() {
    let calls = std::cell::RefCell::new(Vec::new());
    let f = |expr: &str| {
        calls.borrow_mut().push(expr.to_string());
        if expr == "bad" {
            Err(InterpolationError::SpawnFailed)
        } else {
            Ok(expr.to_string())
        }
    };
    let mut action = make_dockerrun("#{image}");
    action.entrypoint = Some("#{ok}".to_string());
    action.user = Some("#{bad}".to_string());
    action.command = Some(strings(&["#{never}"]));
    assert_eq!(action.run(&Vec::new(), &f), Err(InterpolationError::SpawnFailed));
    assert_eq!(*calls.borrow(), strings(&["ok", "bad"]));
}

#[test]
fn end_to_end_build_check() {
    let action = Action {
        context: Context::Image("alpine:3.18".to_string()),
        command: Some(strings(&["echo", "hi"])),
        envs: Some(vec![("FOO".to_string(), "bar".to_string())]),
        ..Action::default()
    };
    let conf = conf::Conf::V1_0(doa::docker::conf::v1_0::Conf {
        version: Version::default(),
        actions: vec![("build-check".to_string(), action)],
    });
    let actions = conf.actions();
    assert_eq!(actions.len(), 1);
    assert_eq!(actions[0].0, "build-check");
    let envs = vec![("HOME".to_string(), "/root".to_string())];
    let args = actions[0].1.run(&envs, &never).unwrap();
    assert_eq!(args, strings(&["run", "--rm", "-e", "FOO=bar", "alpine:3.18", "echo", "hi"]));
}

#[test]
fn slots_tell_fixed_words_from_templates() {
    let mut action = make_dockerrun("img");
    action.user = Some("#{id -u}".to_string());
    let line = action.slots();
    let shown: Vec<(bool, String)> = line
        .iter()
        .map(|slot| match slot {
            Slot::Fixed(word) => (true, word.clone()),
            Slot::Template(text) => (false, text.clone()),
        })
        .collect();
    assert_eq!(
        shown,
        vec![
            (true, "run".to_string()),
            (true, "--rm".to_string()),
            (true, "-u".to_string()),
            (false, "#{id -u}".to_string()),
            (false, "img".to_string()),
        ]
    );
    assert_eq!(fill(&line, &echo), Ok(strings(&["run", "--rm", "-u", "<id -u>", "img"])));
}

#[test]
fn fixed_words_are_never_interpolated() {
    let line = vec![Slot::Fixed("#{x}##".to_string()), Slot::Template("#{x}##".to_string())];
    assert_eq!(fill(&line, &echo), Ok(strings(&["#{x}##", "<x>#"])));
}

#[test]
fn help_is_returned_as_written() {
    let mut action = make_dockerrun("img");
    assert_eq!(action.help(), None);
    action.help = Some("says #{hi}".to_string());
    assert_eq!(action.help(), Some("says #{hi}".to_string()));
    assert_eq!(conf::Action::V1_0(action).help(), Some("says #{hi}".to_string()));
}

#[test]
fn defaults_are_version_one_and_an_empty_image() {
    assert_eq!(Version::default(), Version::V1_0);
    match Context::default() {
        Context::Image(image) => assert_eq!(image, ""),
        Context::Build { .. } => panic!("default context builds"),
    }
    let action = Action::default();
    assert!(action.help.is_none() && action.command.is_none() && action.envs.is_none());
    assert_eq!(action.run(&Vec::new(), &never).unwrap(), strings(&["run", "--rm", ""]));
}

#[test]
fn actions_keep_names_and_order() {
    let conf = doa::docker::conf::v1_0::Conf {
        version: Version::V1_0,
        actions: vec![("b".to_string(), make_dockerrun("two")), ("a".to_string(), make_dockerrun("one"))],
    };
    let actions = conf.actions();
    let names: Vec<&str> = actions.iter().map(|(name, _)| name.as_str()).collect();
    assert_eq!(names, vec!["b", "a"]);
    assert_eq!(actions[1].1.run(&Vec::new(), &never).unwrap(), strings(&["run", "--rm", "one"]));
}

#[test]
fn action_is_found_by_name() {
    let actions = vec![
        ("one".to_string(), conf::Action::V1_0(make_dockerrun("img1"))),
        ("two".to_string(), conf::Action::V1_0(make_dockerrun("img2"))),
    ];
    let found = conf::find(&actions, "two").unwrap();
    assert_eq!(found.run(&Vec::new(), &never).unwrap(), strings(&["run", "--rm", "img2"]));
    assert!(conf::find(&actions, "three").is_none());
    assert!(conf::find(&actions, "").is_none());
    assert!(conf::find(&Vec::new(), "one").is_none());
}

#[test]
fn clone_keeps_every_field() {
    let action = Action {
        context: Context::Build { path: "p".to_string(), name: "n".to_string() },
        help: Some("h".to_string()),
        interactive: Some(true),
        tty: Some(false),
        command: Some(strings(&["c"])),
        entrypoint: Some("ep".to_string()),
        envs: Some(vec![("K".to_string(), "v".to_string())]),
        env_file: Some("f".to_string()),
        network: Some("net".to_string()),
        ports: Some(strings(&["1:1"])),
        volumes: Some(strings(&["/a:/b"])),
        user: Some("u".to_string()),
        extra_flags: Some(strings(&["--x"])),
    };
    let copy = action.clone();
    assert_eq!(format!("{:?}", copy), format!("{:?}", action));
    let mut image = copy;
    image.context = Context::Image("img".to_string()).clone();
    assert_eq!(
        image.run(&Vec::new(), &never).unwrap(),
        strings(&[
            "run", "--rm", "--entrypoint", "ep", "-e", "K=v", "--env-file", "f", "--network=net",
            "-p", "1:1", "-v", "/a:/b", "-u", "u", "--x", "img", "c",
        ])
    );
}

#[test]
fn flag_word_may_still_come_from_the_configuration() {
    let mut action = make_dockerrun("img");
    action.command = Some(strings(&["-u", "--entrypoint"]));
    let args = action.run(&Vec::new(), &never).unwrap();
    assert_eq!(args, strings(&["run", "--rm", "img", "-u", "--entrypoint"]));
    let fixed: Vec<String> = action
        .slots()
        .into_iter()
        .filter_map(|slot| match slot {
            Slot::Fixed(word) => Some(word),
            Slot::Template(_) => None,
        })
        .collect();
    assert_eq!(fixed, strings(&["run", "--rm"]));
}

#[test]
fn run_is_the_same_through_the_versioned_action() {
    let mut action = make_dockerrun("img:#{tag}");
    action.volumes = Some(strings(&["#{pwd}:/src"]));
    let direct = action.run(&Vec::new(), &echo);
    let versioned = conf::Action::V1_0(action).run(&Vec::new(), &echo);
    assert_eq!(direct, versioned);
    assert_eq!(direct.unwrap(), strings(&["run", "--rm", "-v", "<pwd>:/src", "img:<tag>"]));
}
