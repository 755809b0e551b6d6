use nixcr::error::Error;
use nixcr::pipeline::{
    archive_command, build_command, check_commit_name, commit_check_command, next_step, BuildRequest, listing_entries_of, parse_closure,
    query_command, step_outcome, sync_command, sync_step_of, Step,
};
use nixcr::repo::RepoConfig;

#[test]
fn fetch_into_existing_mirror() {
    let repo = RepoConfig::parse("k,git@host:r.git,/keys/k").unwrap();
    let c = sync_command(&repo, "/repos/git_host_r_git", true);
    assert_eq!(c.program, "git");
    assert_eq!(c.args, vec!["--git-dir", "/repos/git_host_r_git", "fetch"]);
    assert_eq!(
        c.git_ssh_command.unwrap(),
        "ssh -i /keys/k -o UserKnownHostsFile=/dev/null -o StrictHostKeyChecking=no"
    );
    assert_eq!(sync_step_of(true), Step::Fetch);
}

#[test]
fn clone_a_missing_mirror() {
    let repo = RepoConfig::parse("k,git@host:r.git").unwrap();
    let c = sync_command(&repo, "/repos/d", false);
    assert_eq!(c.args, vec!["clone", "--bare", "git@host:r.git", "/repos/d"]);
    assert_eq!(c.git_ssh_command.unwrap(), "ssh");
    assert_eq!(sync_step_of(false), Step::Clone);
}

#[test]
fn commit_check_and_archive_commands() {
    let c = commit_check_command("/repos/d", "abc123");
    assert_eq!(c.args, vec!["--git-dir", "/repos/d", "cat-file", "-e", "abc123^{commit}"]);
    let a = archive_command("/repos/d", "abc123");
    assert_eq!(a.program, "git");
    assert_eq!(a.args, vec!["--git-dir", "/repos/d", "archive", "--prefix", "x/", "abc123"]);
    assert!(a.git_ssh_command.is_none());
}

#[test]
fn build_and_query_commands() {
    let b = build_command("/blobs/abc123", "hello");
    assert_eq!(b.program, "nix-build");
    assert_eq!(b.args, vec!["file:////blobs/abc123", "-A", "hello"]);
    let q = query_command();
    assert_eq!(q.program, "nix-store");
    assert_eq!(q.args, vec!["-qR", "result"]);
}

#[test]
fn each_step_reports_its_own_failure() {
    assert_eq!(step_outcome(Step::Clone, false), Err(Error::CloneFailed));
    assert_eq!(step_outcome(Step::Fetch, false), Err(Error::FetchFailed));
    assert_eq!(step_outcome(Step::CheckCommit, false), Err(Error::CommitNotFound));
    assert_eq!(step_outcome(Step::Archive, false), Err(Error::ArchiveFailed));
    assert_eq!(step_outcome(Step::Build, false), Err(Error::BuildFailed));
    assert_eq!(step_outcome(Step::Query, false), Err(Error::QueryFailed));
    assert_eq!(step_outcome(Step::Build, true), Ok(()));
}

#[test]
fn client_errors_are_unknown_key_and_missing_commit() {
    assert!(Error::UnknownRepoKey.is_client_error());
    assert!(Error::CommitNotFound.is_client_error());
    assert!(!Error::BuildFailed.is_client_error());
    assert!(!Error::FetchFailed.is_client_error());
    assert_eq!(Error::FetchFailed.reason(), "git fetch failed");
}

#[test]
fn closure_listing_skips_empty_entries() {
    let out = b"/nix/store/a-glibc\n/nix/store/b-hello\n\n";
    let paths = parse_closure(out).unwrap();
    assert_eq!(paths, vec!["/nix/store/a-glibc", "/nix/store/b-hello"]);
}

#[test]
fn closure_listing_accepts_nul_separators_and_no_trailing_newline() {
    let out = b"\0/a\0\0/b\n/c";
    assert_eq!(parse_closure(out).unwrap(), vec!["/a", "/b", "/c"]);
    assert_eq!(listing_entries_of(out), vec![b"/a".to_vec(), b"/b".to_vec(), b"/c".to_vec()]);
}

#[test]
fn empty_listing_is_an_empty_closure() {
    assert!(parse_closure(b"").unwrap().is_empty());
    assert!(parse_closure(b"\n\n").unwrap().is_empty());
}

#[test]
fn malformed_listing_is_a_query_failure() {
    assert_eq!(parse_closure(b"/a\nrelative\n"), Err(Error::QueryFailed));
    assert_eq!(parse_closure(b"/a\n/\xff\xfe\n"), Err(Error::QueryFailed));
}

#[test]
fn commit_names_are_plain_words() {
    assert_eq!(check_commit_name("0123abcdef"), Ok(()));
    assert_eq!(check_commit_name("main"), Ok(()));
    assert_eq!(check_commit_name("v1.2-rc_3"), Ok(()));
    assert_eq!(check_commit_name(""), Err(Error::CommitNotFound));
    assert_eq!(check_commit_name("--output=/tmp/x"), Err(Error::CommitNotFound));
    assert_eq!(check_commit_name(".."), Err(Error::CommitNotFound));
    assert_eq!(check_commit_name("a/../../etc"), Err(Error::CommitNotFound));
    assert_eq!(check_commit_name("a b"), Err(Error::CommitNotFound));
}

#[test]
fn steps_run_in_pipeline_order() {
    assert_eq!(next_step(Step::Clone), Some(Step::CheckCommit));
    assert_eq!(next_step(Step::Fetch), Some(Step::CheckCommit));
    assert_eq!(next_step(Step::CheckCommit), Some(Step::Archive));
    assert_eq!(next_step(Step::Archive), Some(Step::Build));
    assert_eq!(next_step(Step::Build), Some(Step::Query));
    assert_eq!(next_step(Step::Query), None);
}

#[test]
fn request_commands_carry_its_values() {
    let request = BuildRequest {
        repo: RepoConfig::parse("k,git@h:r.git,/keys/k").unwrap(),
        git_dir: "/repos/g".to_string(),
        archive_path: "/blobs/c1".to_string(),
        commit: "c1".to_string(),
        attr_path: "image".to_string(),
    };
    let clone = request.command(Step::Clone);
    assert_eq!(clone.args, vec!["clone", "--bare", "git@h:r.git", "/repos/g"]);
    assert!(clone.git_ssh_command.unwrap().starts_with("ssh -i /keys/k"));
    let fetch = request.command(Step::Fetch);
    assert_eq!(fetch.args, vec!["--git-dir", "/repos/g", "fetch"]);
    let check = request.command(Step::CheckCommit);
    assert_eq!(check.args, vec!["--git-dir", "/repos/g", "cat-file", "-e", "c1^{commit}"]);
    assert!(check.git_ssh_command.is_none());
    let archive = request.command(Step::Archive);
    assert_eq!(archive.args, vec!["--git-dir", "/repos/g", "archive", "--prefix", "x/", "c1"]);
    let build = request.command(Step::Build);
    assert_eq!(build.program, "nix-build");
    assert_eq!(build.args, vec!["file:////blobs/c1", "-A", "image"]);
    let query = request.command(Step::Query);
    assert_eq!(query.program, "nix-store");
    assert_eq!(query.args, vec!["-qR", "result"]);
}

#[test]
fn every_error_has_a_reason() {
    let all = [
        Error::CloneFailed,
        Error::FetchFailed,
        Error::ArchiveFailed,
        Error::BuildFailed,
        Error::QueryFailed,
        Error::UnknownRepoKey,
        Error::CommitNotFound,
    ];
    let reasons: Vec<&str> = all.iter().map(|e| e.reason()).collect();
    assert!(reasons.iter().all(|r| !r.is_empty()));
    let mut unique = reasons.clone();
    unique.sort();
    unique.dedup();
    assert_eq!(unique.len(), all.len());
}
