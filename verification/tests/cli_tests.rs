use python_launcher::cli::{
    list_executables, parse_python_shebang, shebang_candidate, venv_executable_path,
    version_from_flag, Action, EnvironmentFacts,
};
use python_launcher::{Error, ExactVersion, RequestedVersion};

fn strings(items: &[&str]) -> Vec<String> {
    items.iter().map(|s| s.to_string()).collect()
}

/// An environment snapshot over three interpreters on `PATH`, mirroring
/// a typical installation: `python2.7` and `python3.6` in the first
/// directory, `python3.6` and `python3.7` in the second.
fn env_facts() -> EnvironmentFacts {
    EnvironmentFacts {
        virtual_env: None,
        dir_venv_python: None,
        first_line: None,
        env_vars: Vec::new(),
        dirs: vec![
            strings(&["/dir_a/python2.7", "/dir_a/python3.6"]),
            strings(&["/dir_b/python3.6", "/dir_b/python3.7"]),
        ],
        files: strings(&[
            "/dir_a/python2.7",
            "/dir_a/python3.6",
            "/dir_b/python3.6",
            "/dir_b/python3.7",
        ]),
    }
}

fn empty_facts() -> EnvironmentFacts {
    EnvironmentFacts {
        virtual_env: None,
        dir_venv_python: None,
        first_line: None,
        env_vars: Vec::new(),
        dirs: Vec::new(),
        files: Vec::new(),
    }
}

#[test]
fn test_venv_executable_path() {
    let venv_root = "/path/to/venv";
    assert_eq!(
        venv_executable_path(venv_root),
        "/path/to/venv/bin/python".to_string()
    );
}

#[test]
fn test_list_executables() {
    let mut executables: Vec<(ExactVersion, String)> = Vec::new();

    assert_eq!(
        list_executables(&executables),
        Err(Error::NoExecutableFound(RequestedVersion::Any))
    );

    let python27_path = "/path/to/2/7/python";
    executables.push((ExactVersion { major: 2, minor: 7 }, python27_path.to_string()));
    let python36_path = "/path/to/3/6/python";
    executables.push((ExactVersion { major: 3, minor: 6 }, python36_path.to_string()));
    let python37_path = "/path/to/3/7/python";
    executables.push((ExactVersion { major: 3, minor: 7 }, python37_path.to_string()));

    // Tests try not to make any guarantees about explicit formatting, just
    // that the interpreters are in descending order of version and the
    // interpreter version comes before the path (i.e. in column order).
    let executables_list = list_executables(&executables).unwrap();
    // No critical data is missing.
    assert!(executables_list.contains("2.7"));
    assert!(executables_list.contains(python27_path));
    assert!(executables_list.contains("3.6"));
    assert!(executables_list.contains(python36_path));
    assert!(executables_list.contains("3.7"));
    assert!(executables_list.contains(python37_path));

    // Interpreters listed in the expected order.
    assert!(executables_list.find("2.7").unwrap() < executables_list.find("3.6").unwrap());
    assert!(executables_list.find("3.6").unwrap() < executables_list.find("3.7").unwrap());

    // Columns are in the expected order.
    assert!(executables_list.find("3.6").unwrap() < executables_list.find(python36_path).unwrap());
    assert!(executables_list.find(python36_path).unwrap() < executables_list.find("3.7").unwrap());
}

#[test]
fn version_from_flag_tests() {
    assert_eq!(version_from_flag("-S"), None);
    assert_eq!(version_from_flag("--something"), None);
    assert_eq!(version_from_flag("-3"), Some(RequestedVersion::MajorOnly(3)));
    assert_eq!(version_from_flag("-3.6"), Some(RequestedVersion::Exact(3, 6)));
    assert_eq!(
        version_from_flag("-42.13"),
        Some(RequestedVersion::Exact(42, 13))
    );
    assert_eq!(version_from_flag("-3.6.4"), None);
}

#[test]
fn parse_python_shebang_tests() {
    let no_args: Vec<String> = Vec::new();
    assert_eq!(parse_python_shebang("/usr/bin/python"), None);
    assert_eq!(parse_python_shebang("# /usr/bin/python"), None);
    assert_eq!(parse_python_shebang("! /usr/bin/python"), None);
    assert_eq!(parse_python_shebang("#! /bin/sh"), None);
    assert_eq!(
        parse_python_shebang("#! /usr/bin/env python"),
        Some((RequestedVersion::Any, no_args.clone()))
    );
    assert_eq!(
        parse_python_shebang("#! /usr/bin/python"),
        Some((RequestedVersion::Any, no_args.clone()))
    );
    assert_eq!(
        parse_python_shebang("#! /usr/local/bin/python"),
        Some((RequestedVersion::Any, no_args.clone()))
    );
    assert_eq!(
        parse_python_shebang("#! python"),
        Some((RequestedVersion::Any, no_args.clone()))
    );
    assert_eq!(
        parse_python_shebang("#! /usr/bin/env python3.7"),
        Some((RequestedVersion::Exact(3, 7), no_args.clone()))
    );
    assert_eq!(
        parse_python_shebang("#! /usr/bin/python3.7"),
        Some((RequestedVersion::Exact(3, 7), no_args.clone()))
    );
    assert_eq!(
        parse_python_shebang("#! python3.7"),
        Some((RequestedVersion::Exact(3, 7), no_args.clone()))
    );
    assert_eq!(
        parse_python_shebang("#!/usr/bin/python"),
        Some((RequestedVersion::Any, no_args))
    );
}

#[test]
fn parse_python_shebang_trailing_args() {
    assert_eq!(
        parse_python_shebang("#! /usr/bin/env python3.7 -O"),
        Some((RequestedVersion::Exact(3, 7), strings(&["-O"])))
    );
    assert_eq!(
        parse_python_shebang("#! /usr/bin/python -E -s"),
        Some((RequestedVersion::Any, strings(&["-E", "-s"])))
    );
    assert_eq!(
        parse_python_shebang("#! python3 -I\n"),
        Some((RequestedVersion::MajorOnly(3), strings(&["-I"])))
    );
    // A malformed version suffix fails the whole shebang, arguments or not.
    assert_eq!(parse_python_shebang("#! python3.6.1 -O"), None);
}

#[test]
fn from_main_help() {
    let facts = env_facts();
    for flag in ["-h", "--help"].iter() {
        let argv = strings(&["/path/to/py", flag]);

        match Action::from_main(&argv, &facts) {
            Ok(Action::Help(python_path)) => {
                assert_eq!(python_path, "/dir_b/python3.7".to_string());
            }
            _ => panic!("{:?} flag did not return Action::Help", flag),
        }
    }
}

#[test]
fn from_main_help_missing_interpreter() {
    let facts = empty_facts();
    for flag in ["-h", "--help"].iter() {
        let argv = strings(&["/path/to/py", flag]);
        let help = Action::from_main(&argv, &facts);
        assert_eq!(
            help,
            Err(Error::NoExecutableFound(RequestedVersion::Any))
        );
    }
}

#[test]
fn from_main_list() {
    let facts = env_facts();
    let argv = strings(&["/path/to/py", "--list"]);

    match Action::from_main(&argv, &facts) {
        Ok(Action::List) => {
            // The consumer re-queries the table for the listing itself.
            let mut paths = Vec::new();
            for dir in &facts.dirs {
                paths.extend(dir.iter().cloned());
            }
            let table = python_launcher::all_executables(&paths);
            let output = list_executables(&table).unwrap();
            assert!(output.contains("/dir_a/python2.7"));
            assert!(output.contains("/dir_a/python3.6"));
            assert!(output.contains("/dir_b/python3.7"));
        }
        _ => panic!("'--list' did not return Action::List"),
    }
}

#[test]
fn from_main_list_missing_interpreter() {
    let facts = empty_facts();
    let argv = strings(&["/path/to/py", "--list"]);
    assert_eq!(
        Action::from_main(&argv, &facts),
        Err(Error::NoExecutableFound(RequestedVersion::Any))
    );
}

#[test]
fn from_main_by_flag() {
    let facts = env_facts();
    let launcher_location = "/path/to/py".to_string();

    match Action::from_main(&strings(&["/path/to/py"]), &facts) {
        Ok(Action::Execute {
            launcher_path,
            executable,
            args,
        }) => {
            assert_eq!(launcher_location, launcher_path);
            assert_eq!(executable, "/dir_b/python3.7".to_string());
            assert_eq!(args.len(), 0);
        }
        Ok(Action::Help(_)) => panic!("Got back help"),
        Ok(Action::List) => panic!("Got back a list of executables"),
        Err(error) => panic!("No executable found in default case: {:?}", error),
    }

    match Action::from_main(&strings(&["/path/to/py", "-2"]), &facts) {
        Ok(Action::Execute {
            launcher_path,
            executable,
            args,
        }) => {
            assert_eq!(launcher_location, launcher_path);
            assert_eq!(executable, "/dir_a/python2.7".to_string());
            assert_eq!(args.len(), 0);
        }
        _ => panic!("No executable found in `-2` case"),
    }

    match Action::from_main(&strings(&["/path/to/py", "-3.6"]), &facts) {
        Ok(Action::Execute {
            launcher_path,
            executable,
            args,
        }) => {
            assert_eq!(launcher_location, launcher_path);
            assert_eq!(executable, "/dir_a/python3.6".to_string());
            assert_eq!(args.len(), 0);
        }
        _ => panic!("No executable found in `-3.6` case"),
    }

    match Action::from_main(&strings(&["/path/to/py", "-3.6", "-I"]), &facts) {
        Ok(Action::Execute {
            launcher_path,
            executable,
            args,
        }) => {
            assert_eq!(launcher_location, launcher_path);
            assert_eq!(executable, "/dir_a/python3.6".to_string());
            assert_eq!(args, vec!["-I".to_string()]);
        }
        _ => panic!("No executable found in `-3.6 -I` case"),
    }
}

#[test]
fn from_main_activated_virtual_env() {
    let venv_path = "/path/to/venv";
    let mut facts = env_facts();
    facts.virtual_env = Some(venv_path.to_string());

    match Action::from_main(&strings(&["/path/to/py"]), &facts) {
        Ok(Action::Execute { executable, .. }) => {
            assert_eq!(executable, "/path/to/venv/bin/python".to_string());
        }
        _ => panic!("No executable found in `VIRTUAL_ENV` case"),
    }

    // VIRTUAL_ENV gets ignored if any specific version is requested.
    match Action::from_main(&strings(&["/path/to/py", "-3"]), &facts) {
        Ok(Action::Execute { executable, .. }) => {
            assert_eq!(executable, "/dir_b/python3.7".to_string());
        }
        _ => panic!("No executable found in `VIRTUAL_ENV` case"),
    }
}

#[test]
fn from_main_activated_virtual_env_skips_path_scan() {
    // With an activated virtual environment and no flag, `PATH` is never
    // consulted: an empty `PATH` still resolves.
    let mut facts = empty_facts();
    facts.virtual_env = Some("/tmp/venv".to_string());

    match Action::from_main(&strings(&["/path/to/py"]), &facts) {
        Ok(Action::Execute { executable, .. }) => {
            assert_eq!(executable, "/tmp/venv/bin/python".to_string());
        }
        _ => panic!("No executable found in `VIRTUAL_ENV` case"),
    }

    // An explicit flag bypasses the virtual environment and falls through
    // to the (empty) scan.
    assert_eq!(
        Action::from_main(&strings(&["/path/to/py", "-3"]), &facts),
        Err(Error::NoExecutableFound(RequestedVersion::MajorOnly(3)))
    );
}

#[test]
fn from_main_venv_dir() {
    let mut facts = env_facts();
    facts.dir_venv_python = Some("/project/.venv/bin/python".to_string());

    match Action::from_main(&strings(&["/path/to/py"]), &facts) {
        Ok(Action::Execute { executable, .. }) => {
            assert_eq!(executable, "/project/.venv/bin/python".to_string());
        }
        _ => panic!("No executable found in `.venv` directory case"),
    }

    // An activated environment wins over a `.venv` directory.
    facts.virtual_env = Some("/activated".to_string());
    match Action::from_main(&strings(&["/path/to/py"]), &facts) {
        Ok(Action::Execute { executable, .. }) => {
            assert_eq!(executable, "/activated/bin/python".to_string());
        }
        _ => panic!("No executable found in activated-environment case"),
    }
}

#[test]
fn from_main_shebang() {
    let mut facts = env_facts();
    facts.first_line = Some("#! /usr/bin/env python2.7\n".to_string());

    match Action::from_main(&strings(&["/path/to/py", "/some/script.py"]), &facts) {
        Ok(Action::Execute { executable, .. }) => {
            assert_eq!(executable, "/dir_a/python2.7".to_string());
        }
        _ => panic!("No executable found in shebang case"),
    }

    // An explicit version flag ignores the shebang entirely.
    match Action::from_main(
        &strings(&["/path/to/py", "-3", "/some/script.py"]),
        &facts,
    ) {
        Ok(Action::Execute { executable, .. }) => {
            assert_eq!(executable, "/dir_b/python3.7".to_string());
        }
        _ => panic!("No executable found in flagged shebang case"),
    }

    // Shebang checking only works for the first argument to avoid
    // accidentally reading from arguments to Python code itself; a first
    // argument that is not a readable file leaves no first line.
    let mut no_line_facts = env_facts();
    no_line_facts.first_line = None;
    match Action::from_main(
        &strings(&["/path/to/py", "-m", "my_app", "/some/script.py"]),
        &no_line_facts,
    ) {
        Ok(Action::Execute { executable, .. }) => {
            assert_eq!(executable, "/dir_b/python3.7".to_string());
        }
        _ => panic!("No executable found in shebang case"),
    }
}

#[test]
fn from_main_env_var() {
    let mut facts = env_facts();
    facts.env_vars = vec![("PY_PYTHON".to_string(), "3.6".to_string())];
    let launcher_location = "/path/to/py".to_string();

    match Action::from_main(&strings(&["/path/to/py"]), &facts) {
        Ok(Action::Execute {
            launcher_path,
            executable,
            args,
        }) => {
            assert_eq!(launcher_location, launcher_path);
            assert_eq!(executable, "/dir_a/python3.6".to_string());
            assert_eq!(args.len(), 0);
        }
        _ => panic!("No executable found in PY_PYTHON case"),
    }

    facts.env_vars = vec![("PY_PYTHON3".to_string(), "3.6".to_string())];

    match Action::from_main(&strings(&["/path/to/py", "-3"]), &facts) {
        Ok(Action::Execute {
            launcher_path,
            executable,
            args,
        }) => {
            assert_eq!(launcher_location, launcher_path);
            assert_eq!(executable, "/dir_a/python3.6".to_string());
            assert_eq!(args.len(), 0);
        }
        _ => panic!("No executable found in PY_PYTHON3 case"),
    }

    facts.env_vars = vec![("PY_PYTHON3".to_string(), "3.8.10".to_string())];

    if Action::from_main(&strings(&["/path/to/py", "-3"]), &facts).is_ok() {
        panic!("Invalid PY_PYTHON3 did not error out");
    }
}

#[test]
fn from_main_no_executable_found() {
    let facts = env_facts();
    assert_eq!(
        Action::from_main(&strings(&["/path/to/py", "-42.13"]), &facts),
        Err(Error::NoExecutableFound(RequestedVersion::Exact(42, 13)))
    );
}

#[test]
fn no_executable() {
    // A PATH with zero conforming entries fails with the version that was
    // asked for.
    let mut facts = empty_facts();
    facts.dirs = vec![strings(&["/dir/python0", "/dir/misc.txt"])];

    assert_eq!(
        Action::from_main(&strings(&["/path/to/py"]), &facts),
        Err(Error::NoExecutableFound(RequestedVersion::Any))
    );
    assert_eq!(
        Action::from_main(&strings(&["/path/to/py", "-3.6"]), &facts),
        Err(Error::NoExecutableFound(RequestedVersion::Exact(3, 6)))
    );
}

#[test]
fn shebang_candidate_tests() {
    assert_eq!(shebang_candidate(&strings(&["/path/to/py"])), None);
    assert_eq!(shebang_candidate(&strings(&["/path/to/py", "-h"])), None);
    assert_eq!(
        shebang_candidate(&strings(&["/path/to/py", "--help"])),
        None
    );
    assert_eq!(
        shebang_candidate(&strings(&["/path/to/py", "--list"])),
        None
    );
    // Every version-flag invocation skips the shebang step entirely, so
    // no file is read for it.
    assert_eq!(
        shebang_candidate(&strings(&["/path/to/py", "-3", "app.py"])),
        None
    );
    assert_eq!(shebang_candidate(&strings(&["/path/to/py", "-3"])), None);
    assert_eq!(
        shebang_candidate(&strings(&["/path/to/py", "-", "app.py"])),
        None
    );
    assert_eq!(
        shebang_candidate(&strings(&["/path/to/py", "app.py", "arg"])),
        Some("app.py".to_string())
    );
}

#[test]
fn from_main_any_flag_bypasses_virtual_env() {
    // The flag `-` is a recognized version flag naming an open request;
    // being explicit, it still bypasses the activated virtual
    // environment and the shebang, and resolves via PATH.
    let mut facts = env_facts();
    facts.virtual_env = Some("/path/to/venv".to_string());
    facts.first_line = Some("#! /usr/bin/env python2.7\n".to_string());

    match Action::from_main(&strings(&["/path/to/py", "-", "script.py"]), &facts) {
        Ok(Action::Execute { executable, args, .. }) => {
            assert_eq!(executable, "/dir_b/python3.7".to_string());
            assert_eq!(args, strings(&["script.py"]));
        }
        _ => panic!("No executable found in `-` flag case"),
    }

    // With an empty PATH the same invocation fails instead of falling
    // back to the virtual environment.
    let mut empty = empty_facts();
    empty.virtual_env = Some("/path/to/venv".to_string());
    assert_eq!(
        Action::from_main(&strings(&["/path/to/py", "-"]), &empty),
        Err(Error::NoExecutableFound(RequestedVersion::Any))
    );
}

#[test]
fn from_main_shebang_args_prepended() {
    let mut facts = env_facts();
    facts.first_line = Some("#! /usr/bin/env python2.7 -E\n".to_string());

    match Action::from_main(&strings(&["/path/to/py", "/some/script.py"]), &facts) {
        Ok(Action::Execute { executable, args, .. }) => {
            assert_eq!(executable, "/dir_a/python2.7".to_string());
            assert_eq!(args, strings(&["-E", "/some/script.py"]));
        }
        _ => panic!("No executable found in shebang-arguments case"),
    }
}
