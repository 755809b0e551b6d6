//! Repository configuration: how a repository is named in requests, where
//! it comes from, and how its local mirror is reached.
use crate::error::Error;
use vstd::prelude::*;

verus! {

/// One configured source repository.
#[derive(Debug)]
pub struct RepoConfig {
    /// The identifier that requests use.
    pub lookup_key: String,
    /// Where the repository is cloned from.
    pub url: String,
    /// The private key that authenticates clone and fetch, if any.
    pub deploy_key_path: Option<String>,
}

/// The fields of `s` between commas, in order; there is always one more
/// field than there are commas.
pub open spec fn comma_fields(s: Seq<char>) -> Seq<Seq<char>>
    decreases s.len(),
{
    if s.len() == 0 {
        seq![Seq::empty()]
    } else {
        let f = comma_fields(s.drop_last());
        if s.last() == ',' {
            f.push(Seq::empty())
        } else {
            f.update(f.len() - 1, f.last().push(s.last()))
        }
    }
}

proof fn lemma_comma_fields_nonempty(s: Seq<char>)
    ensures
        comma_fields(s).len() >= 1,
    decreases s.len(),
{
    if s.len() > 0 {
        lemma_comma_fields_nonempty(s.drop_last());
    }
}

/// The views of strings.
pub open spec fn string_views(v: Seq<String>) -> Seq<Seq<char>> {
    v.map_values(|x: String| x@)
}

/// A key and a URL, or a key, a URL and a key path, separated by commas.
pub open spec fn is_repo_text(s: Seq<char>) -> bool {
    comma_fields(s).len() == 2 || comma_fields(s).len() == 3
}

/// A character that may stand in a mirror directory name: an ASCII letter
/// or `_`.
pub open spec fn is_name_char(c: char) -> bool {
    ('A' <= c && c <= 'Z') || ('a' <= c && c <= 'z') || c == '_'
}

/// The mirror directory name for a URL: every character that is not a
/// name character becomes `_`, one for one.
pub open spec fn mirror_name(url: Seq<char>) -> Seq<char> {
    url.map_values(|c: char| if is_name_char(c) { c } else { '_' })
}

/// What follows the key path in the SSH command: no known-hosts file and
/// no host-key prompt, for unattended use.
pub const SSH_KEY_OPTIONS: &'static str = " -o UserKnownHostsFile=/dev/null -o StrictHostKeyChecking=no";

/// The regular expression that matches one character outside ASCII
/// letters and `_`.
pub const NON_NAME_CHARS: &'static str = "[^A-Za-z_]";

/// Relies on `regex::Regex::new` and `regex::Regex::replace_all`: the
/// pattern `[^A-Za-z_]` is valid and matches exactly one character outside
/// ASCII letters and `_`; `replace_all` replaces every such match, and the
/// replacement `_` holds no `$` group reference, so it stands as written.
#[verifier::external_body]
fn regex_replace_all(pattern: &str, text: &str, rep: &str) -> (r: String)
    requires
        pattern@ == NON_NAME_CHARS@,
        rep@ == "_"@,
    ensures
        r@ == mirror_name(text@),
{
    match regex::Regex::new(pattern) {
        Ok(re) => re.replace_all(text, rep).into_owned(),
        Err(_) => String::new(),
    }
}

/// The fields of `s` between commas.
pub fn split_commas(s: &str) -> (r: Vec<String>)
    ensures
        string_views(r@) == comma_fields(s@),
{
    let n = s.unicode_len();
    let mut fields: Vec<String> = Vec::new();
    let mut start: usize = 0;
    let mut i: usize = 0;
    assert(s@.subrange(0, 0) =~= Seq::<char>::empty());
    while i < n
        invariant
            n == s@.len(),
            0 <= start <= i <= n,
            string_views(fields@).push(s@.subrange(start as int, i as int)) == comma_fields(
                s@.subrange(0, i as int),
            ),
        decreases n - i,
    {
        let c = s.get_char(i);
        let ghost pre = s@.subrange(0, i as int);
        let ghost post = s@.subrange(0, i as int + 1);
        proof {
            assert(post.drop_last() =~= pre);
            assert(post.last() == c);
            lemma_comma_fields_nonempty(pre);
        }
        if c == ',' {
            let ghost v0 = string_views(fields@);
            let ghost f = comma_fields(pre);
            let field = s.substring_char(start, i).to_string();
            assert(field@ == s@.subrange(start as int, i as int));
            fields.push(field);
            assert(string_views(fields@) =~= v0.push(s@.subrange(start as int, i as int)));
            assert(comma_fields(post) == f.push(Seq::empty()));
            start = i + 1;
            assert(s@.subrange(start as int, i as int + 1) =~= Seq::<char>::empty());
            assert(string_views(fields@).push(s@.subrange(start as int, i as int + 1))
                =~= comma_fields(post));
        } else {
            assert(s@.subrange(start as int, i as int + 1) =~= s@.subrange(
                start as int,
                i as int,
            ).push(c));
            let ghost f = comma_fields(pre);
            let ghost v = string_views(fields@);
            assert(f == v.push(s@.subrange(start as int, i as int)));
            assert(f.last() == s@.subrange(start as int, i as int));
            assert(comma_fields(post) == f.update(f.len() - 1, f.last().push(c)));
            assert(string_views(fields@).push(s@.subrange(start as int, i as int + 1))
                =~= comma_fields(post));
        }
        i = i + 1;
    }
    let last = s.substring_char(start, n).to_string();
    fields.push(last);
    assert(s@.subrange(0, n as int) =~= s@);
    assert(string_views(fields@) =~= comma_fields(s@));
    fields
}

impl RepoConfig {
    /// What `parse` gives for the text `s`.
    pub open spec fn parsed_from(&self, s: Seq<char>) -> bool {
        let f = comma_fields(s);
        &&& self.lookup_key@ == f[0]
        &&& self.url@ == f[1]
        &&& f.len() == 2 ==> self.deploy_key_path is None
        &&& f.len() == 3 ==> (self.deploy_key_path matches Some(p) && p@ == f[2])
    }

    /// Reads `key,url` or `key,url,deploy-key-path`; any other number of
    /// fields gives `None`.
    pub fn parse(s: &str) -> (r: Option<RepoConfig>)
        ensures
            r is Some <==> is_repo_text(s@),
            r matches Some(c) ==> c.parsed_from(s@),
    {
        let mut fields = split_commas(s);
        let ghost f = comma_fields(s@);
        assert(fields@.len() == f.len());
        if fields.len() == 2 {
            assert(fields@[1]@ == f[1]);
            let url = fields.pop().unwrap();
            assert(fields@[0]@ == f[0]);
            let lookup_key = fields.pop().unwrap();
            Some(RepoConfig { lookup_key, url, deploy_key_path: None })
        } else if fields.len() == 3 {
            assert(fields@[2]@ == f[2]);
            let path = fields.pop().unwrap();
            assert(fields@[1]@ == f[1]);
            let url = fields.pop().unwrap();
            assert(fields@[0]@ == f[0]);
            let lookup_key = fields.pop().unwrap();
            Some(RepoConfig { lookup_key, url, deploy_key_path: Some(path) })
        } else {
            None
        }
    }

    /// The text of `git_ssh_command`.
    pub open spec fn git_ssh_command_text(&self) -> Seq<char> {
        match self.deploy_key_path {
            Some(p) => "ssh -i "@ + p@ + SSH_KEY_OPTIONS@,
            None => "ssh"@,
        }
    }

    /// The value of `GIT_SSH_COMMAND` for clone and fetch: plain `ssh`, or
    /// `ssh -i <key>` with host-key checks turned off when a deploy key is
    /// configured.
    pub fn git_ssh_command(&self) -> (r: String)
        ensures
            r@ == self.git_ssh_command_text(),
    {
        match &self.deploy_key_path {
            Some(path) => {
                let mut c = String::from_str("ssh -i ");
                c.append(path.as_str());
                c.append(SSH_KEY_OPTIONS);
                c
            },
            None => String::from_str("ssh"),
        }
    }

    /// The name of the local mirror directory: the URL with every
    /// character outside ASCII letters and `_` replaced by `_`. Distinct URLs
    /// may share a name.
    pub fn git_dir(&self) -> (r: String)
        ensures
            r@ == mirror_name(self.url@),
            r@.len() == self.url@.len(),
            forall|i: int| 0 <= i < r@.len() ==> is_name_char(#[trigger] r@[i]),
    {
        let r = regex_replace_all(NON_NAME_CHARS, self.url.as_str(), "_");
        assert forall|i: int| 0 <= i < r@.len() implies is_name_char(#[trigger] r@[i]) by {
            assert(r@[i] == (if is_name_char(self.url@[i]) { self.url@[i] } else { '_' }));
        }
        r
    }
}

/// The configured repositories, looked up by key. Lookup scans the list:
/// vstd specifies hash and tree maps only for keys with a key model, which
/// `String` lacks, so a map's answer could not be tied to the contract of
/// `lookup`.
pub struct RepoRegistry {
    repos: Vec<RepoConfig>,
}

impl View for RepoRegistry {
    type V = Seq<RepoConfig>;

    closed spec fn view(&self) -> Seq<RepoConfig> {
        self.repos@
    }
}

/// Whether the configuration at `i` is the last one under `key`.
pub open spec fn is_last_with_key(repos: Seq<RepoConfig>, i: int, key: Seq<char>) -> bool {
    &&& 0 <= i < repos.len()
    &&& repos[i].lookup_key@ == key
    &&& forall|j: int| i < j < repos.len() ==> (#[trigger] repos[j]).lookup_key@ != key
}

impl RepoRegistry {
    pub fn new(repos: Vec<RepoConfig>) -> (r: RepoRegistry)
        ensures
            r@ == repos@,
    {
        RepoRegistry { repos }
    }

    /// The configuration under `key`; of several, the last one given wins.
    pub fn lookup(&self, key: &str) -> (r: Result<&RepoConfig, Error>)
        ensures
            r is Err <==> forall|i: int| 0 <= i < self@.len() ==> (#[trigger] self@[i]).lookup_key@ != key@,
            r matches Err(e) ==> e == Error::UnknownRepoKey,
            r matches Ok(c) ==> exists|i: int| is_last_with_key(self@, i, key@) && *c == self@[i],
    {
        let k = key.to_string();
        let mut i: usize = self.repos.len();
        while i > 0
            invariant
                0 <= i <= self.repos@.len(),
                k@ == key@,
                forall|j: int| i <= j < self.repos@.len() ==> (#[trigger] self.repos@[j]).lookup_key@ != key@,
            decreases i,
        {
            i = i - 1;
            if self.repos[i].lookup_key == k {
                assert(is_last_with_key(self@, i as int, key@));
                return Ok(&self.repos[i]);
            }
        }
        Err(Error::UnknownRepoKey)
    }
}

} // verus!
