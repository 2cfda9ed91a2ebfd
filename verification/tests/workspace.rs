use nanite::registry::SourceKind;
use nanite::remote::RemoteSpec;
use nanite::workspace::{
    check_removal, clone_destination_conflict, import_spec, scan_spec, search_identity, clone_parent, destination_for,
    parse_workspace_relative_spec, prune_step, record_from_spec, relative_spec,
    resolve_repo_remove_target, PruneStep, WorkspaceError,
};

fn spec(host: &str, repo_path: &str) -> RemoteSpec {
    RemoteSpec { host: host.to_owned(), repo_path: repo_path.to_owned() }
}

#[test]
fn workspace_keeps_full_remote_path_depth_in_destination() {
    let destination = destination_for("/tmp/workspace", &spec("github.com", "platform/team/project"));

    assert_eq!(destination.as_str(), "/tmp/workspace/github.com/platform/team/project");
}

#[test]
fn mod_keeps_full_remote_path_depth_in_destination() {
    let destination = destination_for("/tmp/workspace", &spec("github.com", "platform/team/project"));

    assert_eq!(destination.as_str(), "/tmp/workspace/github.com/platform/team/project");
}

#[test]
fn workspace_derives_relative_spec_from_scanned_repo_path() {
    let spec = relative_spec("/tmp/workspace", "/tmp/workspace/github.com/icepuma/nanite").ok().unwrap();

    assert_eq!(spec.host, "github.com");
    assert_eq!(spec.repo_path, "icepuma/nanite");
}

#[test]
fn mod_derives_relative_spec_from_scanned_repo_path() {
    let spec = relative_spec("/tmp/workspace", "/tmp/workspace/github.com/icepuma/nanite").ok().unwrap();

    assert_eq!(spec.host, "github.com");
    assert_eq!(spec.repo_path, "icepuma/nanite");
}

#[test]
fn relative_spec_of_single_segment_is_local() {
    let spec = relative_spec("/tmp/workspace", "/tmp/workspace/scratch").ok().unwrap();

    assert_eq!(spec.host, "local");
    assert_eq!(spec.repo_path, "scratch");
}

#[test]
fn relative_spec_refuses_paths_outside_and_the_root() {
    let outside = relative_spec("/tmp/workspace", "/srv/other").err().unwrap();
    assert_eq!(outside.message(), "/srv/other is not inside /tmp/workspace");

    let root = relative_spec("/tmp/workspace", "/tmp/workspace").err().unwrap();
    assert_eq!(root.message(), "failed to derive a repo path for /tmp/workspace");
}

#[test]
fn workspace_relative_targets_need_host_and_path() {
    let parsed = parse_workspace_relative_spec(" /github.com//icepuma/nanite/ ").ok().unwrap();
    assert_eq!(parsed.host, "github.com");
    assert_eq!(parsed.repo_path, "icepuma/nanite");

    let short = parse_workspace_relative_spec("nanite").err().unwrap();
    assert!(matches!(short, WorkspaceError::TargetShape));
    assert_eq!(short.message(), "workspace repo targets must look like <host>/<repo-path>");

    let dotted = parse_workspace_relative_spec("github.com/../nanite").err().unwrap();
    assert_eq!(dotted.message(), "workspace repo target contains an invalid segment: ..");
}

#[test]
fn remove_target_resolves_remotes_absolute_and_relative_paths() {
    let from_remote =
        resolve_repo_remove_target("/tmp/workspace", "https://github.com/icepuma/nanite.git").ok().unwrap();
    assert_eq!(from_remote, "/tmp/workspace/github.com/icepuma/nanite");

    let absolute =
        resolve_repo_remove_target("/tmp/workspace", "  /tmp/workspace/github.com/icepuma/nanite ").ok().unwrap();
    assert_eq!(absolute, "/tmp/workspace/github.com/icepuma/nanite");

    let relative = resolve_repo_remove_target("/tmp/workspace", "github.com/icepuma/nanite").ok().unwrap();
    assert_eq!(relative, "/tmp/workspace/github.com/icepuma/nanite");

    let blank = resolve_repo_remove_target("/tmp/workspace", "   ").err().unwrap();
    assert_eq!(blank.message(), "repo remove target must not be empty");

    let outside = resolve_repo_remove_target("/tmp/workspace", "/srv/nanite").err().unwrap();
    assert_eq!(outside.message(), "/srv/nanite is not inside /tmp/workspace");
}

#[test]
fn clone_destination_requires_force_to_overwrite_existing() {
    let refused = clone_destination_conflict("/w/github.com/icepuma/nanite", true, false).err().unwrap();
    assert!(refused.message().contains("--force"));
    assert_eq!(clone_destination_conflict("/w/github.com/icepuma/nanite", true, true).ok(), Some(true));
    assert_eq!(clone_destination_conflict("/w/github.com/icepuma/nanite", false, false).ok(), Some(false));

    assert_eq!(clone_parent("/w/github.com/icepuma/nanite").ok().unwrap(), "/w/github.com/icepuma");
    let none = clone_parent("/").err().unwrap();
    assert_eq!(none.message(), "failed to determine clone destination for /");
}

#[test]
fn removal_refuses_missing_repos_and_the_root() {
    assert!(check_removal("/w", "/w/github.com/icepuma/nanite", true).is_ok());
    let missing = check_removal("/w", "/w/github.com/icepuma/nanite", false).err().unwrap();
    assert_eq!(missing.message(), "/w/github.com/icepuma/nanite does not exist");
    let root = check_removal("/w", "/w/", true).err().unwrap();
    assert_eq!(root.message(), "refusing to remove workspace root /w");
}

#[test]
fn pruning_stops_at_the_workspace_root() {
    assert!(matches!(prune_step("/w", None), PruneStep::Done));
    assert!(matches!(prune_step("/w", Some("/w")), PruneStep::Done));
    match prune_step("/w", Some("/w/github.com/icepuma")) {
        PruneStep::Check(p) => assert_eq!(p, "/w/github.com/icepuma"),
        _ => panic!("expected a directory to check"),
    }
    match prune_step("/w", Some("/srv")) {
        PruneStep::Refuse(e) => assert_eq!(e.message(), "/srv is not inside /w"),
        _ => panic!("expected a refusal"),
    }
}

#[test]
fn record_from_spec_names_the_repository_after_its_last_segment() {
    let record = record_from_spec(
        spec("github.com", "icepuma/nanite"),
        "/w/github.com/icepuma/nanite".to_owned(),
        "https://github.com/icepuma/nanite.git".to_owned(),
        SourceKind::Clone,
    );
    assert_eq!(record.name, "nanite");
    assert_eq!(record.host, "github.com");
    assert_eq!(record.repo_path, "icepuma/nanite");
    assert_eq!(record.path, "/w/github.com/icepuma/nanite");
    assert_eq!(record.origin, "https://github.com/icepuma/nanite.git");
    assert_eq!(record.source_kind, SourceKind::Clone);
}

#[test]
fn imports_are_filed_under_their_origin_or_as_local() {
    let from_origin = import_spec(Some("git@github.com:icepuma/nanite.git"), "/src/nanite").ok().unwrap();
    assert_eq!((from_origin.host.as_str(), from_origin.repo_path.as_str()), ("github.com", "icepuma/nanite"));

    let local = import_spec(None, "/src/scratch").ok().unwrap();
    assert_eq!((local.host.as_str(), local.repo_path.as_str()), ("local", "scratch"));

    let unnamed = import_spec(None, "/").err().unwrap();
    assert_eq!(unnamed.message(), "/ does not have a valid basename");

    let bad = import_spec(Some("not a remote"), "/src/x").err().unwrap();
    assert_eq!(bad.message(), "unsupported git remote format: not a remote");
}

#[test]
fn scanned_repositories_fall_back_to_their_place_in_the_workspace() {
    let from_origin =
        scan_spec("/w", "/w/github.com/icepuma/nanite", Some("https://gitlab.com/group/sub/project.git")).ok().unwrap();
    assert_eq!((from_origin.host.as_str(), from_origin.repo_path.as_str()), ("gitlab.com", "group/sub/project"));

    let placed = scan_spec("/w", "/w/github.com/icepuma/nanite", None).ok().unwrap();
    assert_eq!((placed.host.as_str(), placed.repo_path.as_str()), ("github.com", "icepuma/nanite"));
}

#[test]
fn search_names_repositories_by_host_and_path() {
    let found = search_identity("/w", "/w/github.com/icepuma/nanite").ok().unwrap();
    assert_eq!(found, Some(("github.com/icepuma/nanite".to_owned(), "nanite".to_owned())));
    assert_eq!(search_identity("/w", "/w/scratch").ok().unwrap(), None);
    let outside = search_identity("/w", "/srv/x").err().unwrap();
    assert_eq!(outside.message(), "/srv/x is not inside /w");
}
