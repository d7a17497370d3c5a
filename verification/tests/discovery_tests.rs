//! Interpreter discovery: search-path splitting, file-name heuristics and
//! the first-seen-wins version table.

use huak::all_python_interpreters_in_paths;
use huak::env_path_values;
use huak::python_version_from_path;
use huak::valid_python_interpreter_file_name;

#[test]
fn discovery_env_path_values() {
    let paths = env_path_values("/usr/local/bin:/usr/bin:/bin");
    assert_eq!(paths, vec!["/usr/local/bin", "/usr/bin", "/bin"]);
    assert_eq!(env_path_values(""), Vec::<String>::new());
    assert_eq!(env_path_values("::a"), vec!["", "", "a"]);
}

#[test]
fn discovery_rejects_malformed_names() {
    // a bare `python` and a `python3` shorter than `python3.0` both yield nothing
    assert!(python_version_from_path("/usr/bin/python").is_none());
    assert!(python_version_from_path("/usr/bin/python3").is_none());
    assert!(!valid_python_interpreter_file_name("python"));
    assert!(!valid_python_interpreter_file_name("python3"));
    assert!(valid_python_interpreter_file_name("python3.0"));
    assert!(python_version_from_path("/usr/bin/pytohn3.11").is_none());
}

#[test]
fn discovery_reads_versions_from_names() {
    let v = python_version_from_path("/usr/bin/python3.11").unwrap();
    assert_eq!(v.version_str(), "3.11");
    let v = python_version_from_path("python3.10.2").unwrap();
    assert_eq!(v.version_str(), "3.10.2");
}

#[test]
fn discovery_first_seen_wins() {
    // both directories hold python3.11; the first on the path wins
    let paths = vec![
        String::from("/dirA/python3.11"),
        String::from("/dirB/python3.11"),
        String::from("/dirB/python3.12"),
    ];
    let table = all_python_interpreters_in_paths(&paths);
    assert_eq!(table.len(), 2);
    let mut found_11 = None;
    for (v, p) in &table.entries {
        if v.version_str() == "3.11" {
            found_11 = Some(p.clone());
        }
    }
    assert_eq!(found_11.unwrap(), "/dirA/python3.11");
}

#[test]
fn discovery_latest_takes_highest_version() {
    let paths = vec![
        String::from("/a/python3.9"),
        String::from("/a/python3.11"),
        String::from("/a/python3.10"),
        String::from("/a/not-an-interpreter"),
    ];
    let table = all_python_interpreters_in_paths(&paths);
    assert_eq!(table.len(), 3);
    let (v, p) = table.latest().unwrap();
    assert_eq!(v.version_str(), "3.11");
    assert_eq!(p, "/a/python3.11");
}

#[test]
fn discovery_empty_table_has_no_latest() {
    let table = all_python_interpreters_in_paths(&vec![String::from("/bin/sh")]);
    assert_eq!(table.len(), 0);
    assert!(table.latest().is_none());
}
