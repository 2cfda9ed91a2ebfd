use nanite::remote::{
    normalize_repo_path, parse_remote, remote_from_scp_captures, remote_from_url_parts, RemoteError, RemoteSpec,
};

#[test]
fn parses_https_remote() {
    let remote = parse_remote("https://github.com/icepuma/nanite.git").ok().unwrap();

    assert_eq!(remote.host, "github.com");
    assert_eq!(remote.repo_path, "icepuma/nanite");
}

#[test]
fn parses_ssh_remote() {
    let remote = parse_remote("git@github.com:icepuma/nanite.git").ok().unwrap();

    assert_eq!(remote.host, "github.com");
    assert_eq!(remote.repo_path, "icepuma/nanite");
}

#[test]
fn preserves_arbitrary_path_depth() {
    let remote = parse_remote("ssh://git@example.com/platform/team/project/nanite.git").ok().unwrap();

    assert_eq!(remote.host, "example.com");
    assert_eq!(remote.repo_path, "platform/team/project/nanite");
}

#[test]
fn parses_file_remote_without_host() {
    let remote = parse_remote("file:///tmp/platform/team/project/nanite.git").ok().unwrap();

    assert_eq!(remote.host, "local");
    assert_eq!(remote.repo_path, "tmp/platform/team/project/nanite");
}

#[test]
fn refuses_empty_and_unsupported_remotes() {
    assert!(matches!(parse_remote("   "), Err(RemoteError::Empty)));
    let error = parse_remote("not a remote").err().unwrap();
    assert_eq!(error.message(), "unsupported git remote format: not a remote");
    let error = parse_remote("git@host:../x").err().unwrap();
    assert_eq!(error.message(), "git remote path contains an invalid segment: ..");
    let error = parse_remote("git@host:/.git").err().unwrap();
    assert_eq!(error.message(), "git remote path must not be empty");
    let error = parse_remote("mailto:someone").err().unwrap();
    assert_eq!(error.message(), "remote URL is missing a host");
}

#[test]
fn repo_paths_are_normalized() {
    assert_eq!(normalize_repo_path("//a//b.git.git").ok().unwrap(), "a/b");
    assert_eq!(normalize_repo_path("a/./b").err().unwrap().message(), "git remote path contains an invalid segment: .");
    assert!(matches!(normalize_repo_path("///"), Err(RemoteError::EmptyPath)));
}

#[test]
fn remote_name_is_the_last_segment() {
    let spec = RemoteSpec { host: "h".to_owned(), repo_path: "group/sub/project".to_owned() };
    assert_eq!(spec.name(), "project");
    let spec = RemoteSpec { host: "h".to_owned(), repo_path: "single".to_owned() };
    assert_eq!(spec.name(), "single");
}

#[test]
fn url_parts_give_host_and_normalized_path() {
    let spec = remote_from_url_parts("https", Some("github.com".to_owned()), "/icepuma/nanite.git").ok().unwrap();
    assert_eq!(spec.host, "github.com");
    assert_eq!(spec.repo_path, "icepuma/nanite");
    let local = remote_from_url_parts("file", None, "/srv/git/tool.git").ok().unwrap();
    assert_eq!(local.host, "local");
    assert_eq!(local.repo_path, "srv/git/tool");
    let missing = remote_from_url_parts("https", None, "/a/b").err().unwrap();
    assert!(matches!(missing, RemoteError::MissingHost));
}

#[test]
fn scp_captures_give_host_and_path_or_refuse() {
    let spec = remote_from_scp_captures(
        "git@gitlab.com:group/sub/proj.git".to_owned(),
        Some((Some("gitlab.com".to_owned()), Some("group/sub/proj.git".to_owned()))),
    )
    .ok()
    .unwrap();
    assert_eq!(spec.host, "gitlab.com");
    assert_eq!(spec.repo_path, "group/sub/proj");
    let refused = remote_from_scp_captures("nonsense".to_owned(), None).err().unwrap();
    assert_eq!(refused.message(), "unsupported git remote format: nonsense");
}
