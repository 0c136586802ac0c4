use python_launcher::{
    available_executables, choose_executable, filter_python_executables, ExactVersion,
    RequestedVersion,
};

fn get<'t>(
    table: &'t [(ExactVersion, String)],
    version: &ExactVersion,
) -> Option<&'t String> {
    table
        .iter()
        .find(|pair| pair.0 == *version)
        .map(|pair| &pair.1)
}

fn strings(items: &[&str]) -> Vec<String> {
    items.iter().map(|s| s.to_string()).collect()
}

#[test]
fn test_filter_python_executables() {
    let paths = strings(&[
        "/bad/path/python",    // Under-specified.
        "/bad/path/python3",   // Under-specified.
        "/bad/path/hello",     // Not Python.
        "/bad/path/pytho3.6",  // Typo.
        "/bad/path/rython3.6", // Typo.
        "/good/path/python3.6",
        "/good/python42.13",
    ]);
    let results = filter_python_executables(&paths);
    let good_version1 = ExactVersion { major: 3, minor: 6 };
    let good_version2 = ExactVersion {
        major: 42,
        minor: 13,
    };
    match get(&results, &good_version1) {
        Some(path) => assert_eq!(*path, "/good/path/python3.6".to_string()),
        None => panic!("{:?} not found", good_version1),
    };
    match get(&results, &good_version2) {
        Some(path) => assert_eq!(*path, "/good/python42.13".to_string()),
        None => panic!("{:?} not found", good_version2),
    }
}

#[test]
fn test_choose_executable() {
    let version_3_6 = ExactVersion { major: 3, minor: 6 };
    let version_42_0 = ExactVersion {
        major: 42,
        minor: 0,
    };
    let version_42_13 = ExactVersion {
        major: 42,
        minor: 13,
    };
    let path_3_6 = "/python3.6".to_string();
    let path_42_0 = "/python42.0".to_string();
    let path_42_13 = "/python42.13".to_string();
    let mut mapping: Vec<(ExactVersion, String)> = Vec::new();

    if choose_executable(&mapping).is_some() {
        panic!("found a non-existent path");
    };

    mapping.push((version_3_6, path_3_6.clone()));
    match choose_executable(&mapping) {
        Some(path) => assert_eq!(path, path_3_6),
        None => panic!("no path found"),
    }

    mapping.push((version_42_0, path_42_0));
    mapping.push((version_42_13, path_42_13.clone()));
    match choose_executable(&mapping) {
        Some(path) => assert_eq!(path, path_42_13),
        None => panic!("no path found"),
    }
}

#[test]
fn all_executables() {
    // Directory A is searched before directory B; 3.6 appears in both and
    // the first one found wins.
    let paths = strings(&[
        "/dir_a/python2.7",
        "/dir_a/python3.6",
        "/dir_b/python3.6",
        "/dir_b/python3.7",
    ]);

    let executables = python_launcher::all_executables(&paths);

    assert_eq!(executables.len(), 3);

    let python27_version = ExactVersion { major: 2, minor: 7 };
    assert_eq!(
        get(&executables, &python27_version),
        Some(&"/dir_a/python2.7".to_string())
    );

    let python36_version = ExactVersion { major: 3, minor: 6 };
    assert_eq!(
        get(&executables, &python36_version),
        Some(&"/dir_a/python3.6".to_string())
    );

    let python37_version = ExactVersion { major: 3, minor: 7 };
    assert_eq!(
        get(&executables, &python37_version),
        Some(&"/dir_b/python3.7".to_string())
    );
}

#[test]
fn find_executable() {
    let paths = strings(&[
        "/dir_a/python2.7",
        "/dir_a/python3.6",
        "/dir_b/python3.6",
        "/dir_b/python3.7",
    ]);

    assert_eq!(
        python_launcher::find_executable(RequestedVersion::Any, &paths),
        Some("/dir_b/python3.7".to_string())
    );

    assert_eq!(
        python_launcher::find_executable(RequestedVersion::MajorOnly(2), &paths),
        Some("/dir_a/python2.7".to_string())
    );

    assert_eq!(
        python_launcher::find_executable(RequestedVersion::MajorOnly(3), &paths),
        Some("/dir_b/python3.7".to_string())
    );

    assert_eq!(
        python_launcher::find_executable(RequestedVersion::Exact(3, 6), &paths),
        Some("/dir_a/python3.6".to_string())
    );

    assert_eq!(
        python_launcher::find_executable(RequestedVersion::MajorOnly(42), &paths),
        None
    );

    assert_eq!(
        python_launcher::find_executable(RequestedVersion::Exact(3, 8), &paths),
        None
    );

    assert_eq!(
        python_launcher::find_executable(RequestedVersion::Exact(4, 0), &paths),
        None
    );
}

#[test]
fn available_executables_loose_request_scans_every_directory() {
    let dirs = vec![
        strings(&["/dir_a/python2.7", "/dir_a/python3.6"]),
        strings(&["/dir_b/python3.6", "/dir_b/python3.7"]),
    ];
    let files = strings(&[
        "/dir_a/python2.7",
        "/dir_a/python3.6",
        "/dir_b/python3.6",
        "/dir_b/python3.7",
    ]);

    let found = available_executables(RequestedVersion::Any, &dirs, &files);
    assert_eq!(found.len(), 3);
    assert_eq!(
        choose_executable(&found),
        Some("/dir_b/python3.7".to_string())
    );

    let found_major = available_executables(RequestedVersion::MajorOnly(3), &dirs, &files);
    assert_eq!(found_major.len(), 2);
    assert_eq!(
        choose_executable(&found_major),
        Some("/dir_b/python3.7".to_string())
    );
}

#[test]
fn available_executables_exact_request_short_circuits() {
    let dirs = vec![
        strings(&["/dir_a/python3.6"]),
        strings(&["/dir_b/python3.6", "/dir_b/python3.7"]),
    ];
    let files = strings(&["/dir_a/python3.6", "/dir_b/python3.6", "/dir_b/python3.7"]);

    // The exact hit in the first directory ends the scan: the later
    // directories are never recorded.
    let found = available_executables(RequestedVersion::Exact(3, 6), &dirs, &files);
    assert_eq!(found.len(), 1);
    assert_eq!(found[0].1, "/dir_a/python3.6".to_string());
}

#[test]
fn available_executables_skips_non_files() {
    let dirs = vec![strings(&["/dir_a/python3.6", "/dir_a/python3.7"])];
    // Only 3.6 is an existing regular file; 3.7 must not be recorded.
    let files = strings(&["/dir_a/python3.6"]);

    let found = available_executables(RequestedVersion::Any, &dirs, &files);
    assert_eq!(found.len(), 1);
    assert_eq!(
        choose_executable(&found),
        Some("/dir_a/python3.6".to_string())
    );
}

#[test]
fn all_executables_empty_path() {
    let paths: Vec<String> = Vec::new();
    assert_eq!(python_launcher::all_executables(&paths).len(), 0);
    assert_eq!(
        python_launcher::find_executable(RequestedVersion::Any, &paths),
        None
    );
}
