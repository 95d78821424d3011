use frr_bootc::logger::LogEntry;
use frr_bootc::network_sync::{
    sync, Cause, FindFailure, NetworkAction, NetworkEvent, NetworkFailure,
};
use frr_bootc::source::{
    copy_dir_contents, files_equal, leads_back, list_names, statefile_paths, statefiles_to_apply, EntryKind,
    SourceEntry, StageAction,
};

const SRC: &str = "/run/config/network";

fn entry(name: &str, is_file: bool) -> SourceEntry {
    SourceEntry { name: name.as_bytes().to_vec(), is_file }
}

fn written(entry: &LogEntry) -> String {
    match entry {
        LogEntry::Log(s) => s.clone(),
        _ => panic!("nothing but messages"),
    }
}

fn run_sync(files: &[(&str, &str)]) -> (Result<(), NetworkFailure>, Vec<String>, usize) {
    let (mut s, mut step) = sync(SRC);
    let mut log = Vec::new();
    let mut applied = 0;
    loop {
        log.extend(step.log.iter().map(written));
        let event = match step.action {
            NetworkAction::ProbeSource => NetworkEvent::Probed(Some(!files.is_empty())),
            NetworkAction::ListSource => {
                NetworkEvent::Listed(Ok(files.iter().map(|f| f.0.as_bytes().to_vec()).collect()))
            }
            NetworkAction::FindEntries => {
                NetworkEvent::Found(Ok(files.iter().map(|f| entry(f.0, true)).collect()))
            }
            NetworkAction::Read(i) => NetworkEvent::Content(Ok(files[i].1.to_string())),
            NetworkAction::Apply(_) => {
                applied += 1;
                NetworkEvent::Applied(Ok(()))
            }
            NetworkAction::Finish(outcome) => return (outcome, log, applied),
        };
        assert!(s.expects(&event));
        step = s.advance(event);
    }
}

#[test]
fn network_empty_source_is_a_noop() {
    let (result, log, applied) = run_sync(&[]);
    assert!(result.is_ok());
    assert_eq!(applied, 0);
    assert_eq!(log, vec!["/run/config/network is empty or not mounted, nothing to sync"]);
}

#[test]
fn only_yml_and_yaml_files_are_picked_up() {
    let entries = vec![
        entry("a.yml", true),
        entry("b.yaml", true),
        entry("c.nmconnection", true),
        entry("README", true),
    ];
    let names: Vec<String> = statefile_paths(&entries)
        .iter()
        .map(|i| String::from_utf8(entries[*i].name.clone()).unwrap())
        .collect();
    assert_eq!(names, vec!["a.yml", "b.yaml"]);
}

#[test]
fn statefile_paths_follows_configmap_style_symlinks() {
    // What the entries are is found out by following links.
    let entries = vec![
        entry("..2026_01_01_00_00_00.000000000", false),
        entry("..data", false),
        entry("nmstate.yml", true),
    ];
    let names: Vec<String> = statefile_paths(&entries)
        .iter()
        .map(|i| String::from_utf8(entries[*i].name.clone()).unwrap())
        .collect();
    assert_eq!(names, vec!["nmstate.yml"]);
}

#[test]
fn names_decide_what_is_a_statefile() {
    let entries = vec![
        entry(".hidden.yml", true),
        entry("dir.yml", false),
        entry("x.YML", true),
        entry("yml", true),
        entry("x.yml.bak", true),
        entry("x.y.yaml", true),
        entry("", true),
    ];
    assert_eq!(statefile_paths(&entries), vec![5]);
}

#[test]
fn statefiles_are_applied_in_the_order_of_their_names() {
    let entries = vec![
        entry("b.yml", true),
        entry("README", true),
        entry("a.yaml", true),
        entry("10.yml", true),
        entry("A.yml", true),
    ];
    assert_eq!(statefiles_to_apply(&entries), vec![3, 4, 2, 0]);
}

#[test]
fn documents_are_applied_one_after_the_other() {
    let (result, log, applied) = run_sync(&[
        ("b.yml", "interfaces: []\n"),
        ("a.yaml", "interfaces: []\n"),
        ("README", "not config\n"),
    ]);
    assert!(result.is_ok());
    assert_eq!(applied, 2);
    assert_eq!(
        log,
        vec![
            "starting sync from /run/config/network (files: README a.yaml b.yml)",
            "applying nmstate state a.yaml",
            "applied a.yaml successfully",
            "applying nmstate state b.yml",
            "applied b.yml successfully",
            "sync complete",
        ]
    );
}

#[test]
fn a_document_that_is_no_desired_state_ends_the_sync() {
    let (result, log, applied) = run_sync(&[
        ("a.yml", "interfaces: []\n"),
        ("b.yml", "no-such-key: 1\n"),
        ("c.yml", "interfaces: []\n"),
    ]);
    let failure = result.unwrap_err();
    assert_eq!(failure.message, "failed to parse b.yml as an nmstate desired state");
    match failure.cause {
        Cause::Nmstate(e) => assert!(e.to_string().contains("Invalid YAML string")),
        _ => panic!(),
    }
    assert_eq!(applied, 1);
    assert_eq!(log.last().unwrap(), "applying nmstate state b.yml");
}

#[test]
fn a_document_that_cannot_be_applied_ends_the_sync() {
    let (mut s, _) = sync(SRC);
    s.advance(NetworkEvent::Probed(Some(true)));
    s.advance(NetworkEvent::Listed(Ok(vec![b"a.yml".to_vec()])));
    let step = s.advance(NetworkEvent::Found(Ok(vec![entry("a.yml", true)])));
    assert!(matches!(step.action, NetworkAction::Read(0)));
    let step = s.advance(NetworkEvent::Content(Ok("interfaces: []\n".to_string())));
    assert!(matches!(step.action, NetworkAction::Apply(_)));
    let error = nmstate::NmstateError::new(nmstate::ErrorKind::Bug, "boom".to_string());
    let step = s.advance(NetworkEvent::Applied(Err(error)));
    match step.action {
        NetworkAction::Finish(Err(f)) => {
            assert_eq!(f.message, "failed to apply a.yml");
            assert!(matches!(f.cause, Cause::Nmstate(_)));
        }
        _ => panic!(),
    }
    assert!(!s.expects(&NetworkEvent::Probed(None)));
}

#[test]
fn a_directory_or_document_that_cannot_be_read_ends_the_sync() {
    let (mut s, _) = sync(SRC);
    s.advance(NetworkEvent::Probed(Some(true)));
    let step = s.advance(NetworkEvent::Listed(Err("io".to_string())));
    match step.action {
        NetworkAction::Finish(Err(f)) => {
            assert_eq!(f.message, "io");
            assert!(matches!(f.cause, Cause::Nothing));
        }
        _ => panic!(),
    }

    for (failure, message) in [
        (FindFailure::Opening("io".to_string()), "failed to read /run/config/network"),
        (FindFailure::Walking("io".to_string()), "io"),
    ] {
        let (mut s, _) = sync(SRC);
        s.advance(NetworkEvent::Probed(Some(true)));
        s.advance(NetworkEvent::Listed(Ok(vec![])));
        match s.advance(NetworkEvent::Found(Err(failure))).action {
            NetworkAction::Finish(Err(f)) => assert_eq!(f.message, message),
            _ => panic!(),
        }
    }

    let (mut s, _) = sync(SRC);
    s.advance(NetworkEvent::Probed(Some(true)));
    s.advance(NetworkEvent::Listed(Ok(vec![])));
    s.advance(NetworkEvent::Found(Ok(vec![entry("a.yml", true)])));
    match s.advance(NetworkEvent::Content(Err("gone".to_string()))).action {
        NetworkAction::Finish(Err(f)) => {
            assert_eq!(f.message, "failed to read /run/config/network/a.yml");
            assert!(matches!(f.cause, Cause::Text(t) if t == "gone"));
        }
        _ => panic!(),
    }
}

#[test]
fn a_parsed_document_is_handed_on() {
    let (mut s, _) = sync(SRC);
    s.advance(NetworkEvent::Probed(Some(true)));
    s.advance(NetworkEvent::Listed(Ok(vec![])));
    s.advance(NetworkEvent::Found(Ok(vec![entry("a.yml", true)])));
    let yaml = "interfaces:\n- name: eth7\n  type: ethernet\n  state: up\n";
    let state = nmstate::NetworkState::new_from_yaml(yaml);
    match s.parsed(state).action {
        NetworkAction::Apply(state) => {
            assert_eq!(state.interfaces.to_vec()[0].name(), "eth7");
        }
        _ => panic!(),
    }
}

#[test]
fn names_are_sorted_and_made_text() {
    assert_eq!(
        list_names(&vec![b"b".to_vec(), b"a\xff".to_vec(), b"B".to_vec(), b"".to_vec()]),
        vec!["", "B", "a\u{fffd}", "b"]
    );
}

#[test]
fn files_are_equal_only_if_both_can_be_read() {
    let a = Some(b"x".to_vec());
    assert!(files_equal(&a, &Some(b"x".to_vec())));
    assert!(!files_equal(&a, &Some(b"xy".to_vec())));
    assert!(!files_equal(&a, &None));
    assert!(!files_equal(&None, &None));
}

#[test]
fn staging_mirrors_files_and_directories_whatever_their_names() {
    for name in ["frr.conf", ".x", "..x", "..data", "..2026_01_01_00_00_00.000000000"] {
        let name = name.as_bytes().to_vec();
        assert_eq!(copy_dir_contents(&name, EntryKind::File), StageAction::Copy);
        assert_eq!(copy_dir_contents(&name, EntryKind::LinkToFile), StageAction::Copy);
        assert_eq!(copy_dir_contents(&name, EntryKind::Directory), StageAction::Descend);
        assert_eq!(copy_dir_contents(&name, EntryKind::LinkBack), StageAction::Skip);
        assert_eq!(copy_dir_contents(&name, EntryKind::Other), StageAction::Skip);
    }
}

#[test]
fn staging_follows_links_to_directories_but_for_the_data_link() {
    for (name, expected) in [
        ("d", StageAction::Descend),
        ("..data", StageAction::Skip),
        ("..data2", StageAction::Descend),
        ("..x", StageAction::Descend),
        ("", StageAction::Descend),
    ] {
        assert_eq!(
            copy_dir_contents(&name.as_bytes().to_vec(), EntryKind::LinkToDirectory),
            expected
        );
    }
}

#[test]
fn a_link_leads_back_to_what_holds_it() {
    let path = |s: &str| s.as_bytes().to_vec();
    let way = vec![path("/run/config/frr"), path("/srv/shared")];
    for (target, expected) in [
        ("/run/config/frr", true),
        ("/run/config", true),
        ("/", true),
        ("/srv/shared", true),
        ("/run/config/fr", false),
        ("/run/config/frr/sub", false),
        ("/run/config/frr2", false),
        ("/etc", false),
    ] {
        assert_eq!(leads_back(&path(target), &way), expected, "{target}");
    }
    assert!(!leads_back(&path("/"), &vec![]));
}
