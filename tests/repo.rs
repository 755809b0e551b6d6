use nixcr::error::Error;
use nixcr::repo::{split_commas, RepoConfig, RepoRegistry};

#[test]
fn parse_key_and_url() {
    let c = RepoConfig::parse("blarg,git@github.com:me/blarg.git").unwrap();
    assert_eq!(c.lookup_key, "blarg");
    assert_eq!(c.url, "git@github.com:me/blarg.git");
    assert!(c.deploy_key_path.is_none());
}

#[test]
fn parse_key_url_and_deploy_key() {
    let c = RepoConfig::parse("k,https://x.org/r,/keys/id_rsa").unwrap();
    assert_eq!(c.lookup_key, "k");
    assert_eq!(c.url, "https://x.org/r");
    assert_eq!(c.deploy_key_path.as_deref(), Some("/keys/id_rsa"));
}

#[test]
fn parse_refuses_other_field_counts() {
    assert!(RepoConfig::parse("justaurl").is_none());
    assert!(RepoConfig::parse("a,b,c,d").is_none());
    assert!(RepoConfig::parse("").is_none());
}

#[test]
fn parse_keeps_empty_fields() {
    let c = RepoConfig::parse(",u").unwrap();
    assert_eq!(c.lookup_key, "");
    assert_eq!(c.url, "u");
}

#[test]
fn split_keeps_every_field() {
    assert_eq!(split_commas("a,,b,"), vec!["a", "", "b", ""]);
    assert_eq!(split_commas(""), vec![""]);
    assert_eq!(split_commas("é,ü"), vec!["é", "ü"]);
}

#[test]
fn git_dir_replaces_non_letters() {
    let c = RepoConfig::parse("k,git@github.com:me/blarg-2.git").unwrap();
    assert_eq!(c.git_dir(), "git_github_com_me_blarg___git");
}

#[test]
fn ssh_command_without_key_is_plain_ssh() {
    let c = RepoConfig::parse("k,u").unwrap();
    assert_eq!(c.git_ssh_command(), "ssh");
}

#[test]
fn ssh_command_with_key_disables_host_checks() {
    let c = RepoConfig::parse("k,u,/keys/deploy").unwrap();
    assert_eq!(
        c.git_ssh_command(),
        "ssh -i /keys/deploy -o UserKnownHostsFile=/dev/null -o StrictHostKeyChecking=no"
    );
}

#[test]
fn lookup_finds_configured_key() {
    let reg = RepoRegistry::new(vec![
        RepoConfig::parse("a,ua").unwrap(),
        RepoConfig::parse("b,ub").unwrap(),
    ]);
    assert_eq!(reg.lookup("b").ok().unwrap().url, "ub");
    assert_eq!(reg.lookup("a").ok().unwrap().url, "ua");
}

#[test]
fn lookup_of_unknown_key_is_an_error() {
    let reg = RepoRegistry::new(vec![RepoConfig::parse("a,ua").unwrap()]);
    assert_eq!(reg.lookup("zzz").err(), Some(Error::UnknownRepoKey));
    let empty = RepoRegistry::new(Vec::new());
    assert_eq!(empty.lookup("a").err(), Some(Error::UnknownRepoKey));
}

#[test]
fn lookup_with_repeated_key_takes_the_last() {
    let reg = RepoRegistry::new(vec![
        RepoConfig::parse("a,first").unwrap(),
        RepoConfig::parse("a,second").unwrap(),
    ]);
    assert_eq!(reg.lookup("a").ok().unwrap().url, "second");
}

#[test]
fn git_dir_keeps_one_character_per_url_character() {
    let c = RepoConfig::parse("k,https://exämple.org/Repo_x").unwrap();
    let d = c.git_dir();
    assert_eq!(d, "https___ex_mple_org_Repo_x");
    assert_eq!(d.chars().count(), c.url.chars().count());
}
