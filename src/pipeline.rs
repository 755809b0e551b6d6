//! The subprocess steps of a manifest request: syncing the mirror, checking
//! and exporting the commit, building, and querying the closure. Each step
//! is a command to run and a reading of how it ended; running them is left
//! to the caller.
use crate::error::Error;
use crate::repo::{string_views, RepoConfig};
use crate::tarsum::byte_views;
use crate::text::{push_bytes, utf8_string};
use vstd::prelude::*;
use vstd::utf8::{decode_utf8, valid_utf8};

verus! {

/// A subprocess to run: program, arguments, and the SSH command that git
/// should use, if any.
pub struct Command {
    pub program: String,
    pub args: Vec<String>,
    pub git_ssh_command: Option<String>,
}

/// The steps that run a subprocess.
#[derive(PartialEq, Eq, Structural, Clone, Copy, Debug)]
pub enum Step {
    /// The first bare clone of a mirror.
    Clone,
    /// A fetch into an existing mirror.
    Fetch,
    /// Whether the mirror holds the requested commit.
    CheckCommit,
    /// The export of the commit's source tree.
    Archive,
    /// The build of the requested target.
    Build,
    /// The listing of the build result's closure.
    Query,
}

/// The failure that each step reports when its subprocess fails.
pub open spec fn step_error(step: Step) -> Error {
    match step {
        Step::Clone => Error::CloneFailed,
        Step::Fetch => Error::FetchFailed,
        Step::CheckCommit => Error::CommitNotFound,
        Step::Archive => Error::ArchiveFailed,
        Step::Build => Error::BuildFailed,
        Step::Query => Error::QueryFailed,
    }
}

/// How a step ended: success, or the step's own failure. No step is retried.
pub fn step_outcome(step: Step, success: bool) -> (r: Result<(), Error>)
    ensures
        success ==> r is Ok,
        !success ==> r == Err::<(), Error>(step_error(step)),
{
    if success {
        Ok(())
    } else {
        Err(
            match step {
                Step::Clone => Error::CloneFailed,
                Step::Fetch => Error::FetchFailed,
                Step::CheckCommit => Error::CommitNotFound,
                Step::Archive => Error::ArchiveFailed,
                Step::Build => Error::BuildFailed,
                Step::Query => Error::QueryFailed,
            },
        )
    }
}

/// The step that brings a mirror up to date: a fetch into an existing one,
/// a first clone otherwise.
pub open spec fn sync_step(mirror_exists: bool) -> Step {
    if mirror_exists {
        Step::Fetch
    } else {
        Step::Clone
    }
}

/// The sync step for a mirror that exists or not.
pub fn sync_step_of(mirror_exists: bool) -> (r: Step)
    ensures
        r == sync_step(mirror_exists),
{
    if mirror_exists {
        Step::Fetch
    } else {
        Step::Clone
    }
}

fn owned(s: &str) -> (r: String)
    ensures
        r@ == s@,
{
    s.to_string()
}

/// The git command that syncs the mirror at `git_dir`: `git --git-dir <dir>
/// fetch` into an existing mirror, `git clone --bare <url> <dir>` otherwise,
/// both with the repository's SSH command.
pub fn sync_command(repo: &RepoConfig, git_dir: &str, mirror_exists: bool) -> (r: Command)
    ensures
        r.program@ == "git"@,
        r.git_ssh_command matches Some(c) && c@ == repo.git_ssh_command_text(),
        mirror_exists ==> string_views(r.args@) == seq!["--git-dir"@, git_dir@, "fetch"@],
        !mirror_exists ==> string_views(r.args@) == seq!["clone"@, "--bare"@, repo.url@, git_dir@],
{
    let args = if mirror_exists {
        vec![owned("--git-dir"), owned(git_dir), owned("fetch")]
    } else {
        vec![owned("clone"), owned("--bare"), owned(repo.url.as_str()), owned(git_dir)]
    };
    let r = Command { program: owned("git"), args, git_ssh_command: Some(repo.git_ssh_command()) };
    assert(string_views(r.args@) =~= if mirror_exists {
        seq!["--git-dir"@, git_dir@, "fetch"@]
    } else {
        seq!["clone"@, "--bare"@, repo.url@, git_dir@]
    });
    r
}

/// `git --git-dir <dir> cat-file -e <commit>^{commit}`: succeeds exactly
/// when the mirror holds a commit of that name.
pub fn commit_check_command(git_dir: &str, commit: &str) -> (r: Command)
    ensures
        r.program@ == "git"@,
        r.git_ssh_command is None,
        string_views(r.args@) == seq!["--git-dir"@, git_dir@, "cat-file"@, "-e"@, commit@ + "^{commit}"@],
{
    let mut object = owned(commit);
    object.append("^{commit}");
    let r = Command {
        program: owned("git"),
        args: vec![owned("--git-dir"), owned(git_dir), owned("cat-file"), owned("-e"), object],
        git_ssh_command: None,
    };
    assert(string_views(r.args@) =~= seq![
        "--git-dir"@,
        git_dir@,
        "cat-file"@,
        "-e"@,
        commit@ + "^{commit}"@,
    ]);
    r
}

/// A character that may stand in a commit name: an ASCII letter or digit,
/// `-`, `_` or `.`.
pub open spec fn is_commit_char(c: char) -> bool {
    ('a' <= c && c <= 'z') || ('A' <= c && c <= 'Z') || ('0' <= c && c <= '9') || c == '-' || c
        == '_' || c == '.'
}

/// A commit name that is safe both as a git argument and as a file name in
/// the blob directory: not empty, made of commit characters, and starting
/// with a letter or digit, so that it is never an option or a relative
/// path step.
pub open spec fn is_commit_name(s: Seq<char>) -> bool {
    &&& s.len() > 0
    &&& forall|i: int| 0 <= i < s.len() ==> is_commit_char(#[trigger] s[i])
    &&& s[0] != '-' && s[0] != '_' && s[0] != '.'
}

/// Accepts a requested commit name, or reports it as a commit that does
/// not exist.
pub fn check_commit_name(commit: &str) -> (r: Result<(), Error>)
    ensures
        r is Ok <==> is_commit_name(commit@),
        r matches Err(e) ==> e == Error::CommitNotFound,
{
    let n = commit.unicode_len();
    if n == 0 {
        return Err(Error::CommitNotFound);
    }
    let first = commit.get_char(0);
    if first == '-' || first == '_' || first == '.' {
        return Err(Error::CommitNotFound);
    }
    let mut i: usize = 0;
    while i < n
        invariant
            n == commit@.len(),
            0 <= i <= n,
            forall|j: int| 0 <= j < i ==> is_commit_char(#[trigger] commit@[j]),
        decreases n - i,
    {
        let c = commit.get_char(i);
        if !(('a' <= c && c <= 'z') || ('A' <= c && c <= 'Z') || ('0' <= c && c <= '9') || c == '-'
            || c == '_' || c == '.') {
            return Err(Error::CommitNotFound);
        }
        i = i + 1;
    }
    Ok(())
}

/// The top directory of every exported source archive. The build tool
/// strips the first path segment, so it must not be empty.
pub const ARCHIVE_PREFIX: &'static str = "x/";

/// `git --git-dir <dir> archive --prefix x/ <commit>`: the source tree of
/// the commit as a tar archive on standard output.
pub fn archive_command(git_dir: &str, commit: &str) -> (r: Command)
    ensures
        r.program@ == "git"@,
        r.git_ssh_command is None,
        string_views(r.args@) == seq!["--git-dir"@, git_dir@, "archive"@, "--prefix"@, ARCHIVE_PREFIX@, commit@],
{
    let r = Command {
        program: owned("git"),
        args: vec![owned("--git-dir"), owned(git_dir), owned("archive"), owned("--prefix"), owned(ARCHIVE_PREFIX), owned(commit)],
        git_ssh_command: None,
    };
    assert(string_views(r.args@) =~= seq![
        "--git-dir"@,
        git_dir@,
        "archive"@,
        "--prefix"@,
        ARCHIVE_PREFIX@,
        commit@,
    ]);
    r
}

/// `nix-build file:///<archive> -A <attribute>`: builds the target from the
/// exported archive, addressed as a local file URL.
pub fn build_command(archive_path: &str, attr_path: &str) -> (r: Command)
    ensures
        r.program@ == "nix-build"@,
        r.git_ssh_command is None,
        string_views(r.args@) == seq!["file:///"@ + archive_path@, "-A"@, attr_path@],
{
    let mut url = owned("file:///");
    url.append(archive_path);
    let r = Command {
        program: owned("nix-build"),
        args: vec![url, owned("-A"), owned(attr_path)],
        git_ssh_command: None,
    };
    assert(string_views(r.args@) =~= seq!["file:///"@ + archive_path@, "-A"@, attr_path@]);
    r
}

/// `nix-store -qR result`: the closure of the build result.
pub fn query_command() -> (r: Command)
    ensures
        r.program@ == "nix-store"@,
        r.git_ssh_command is None,
        string_views(r.args@) == seq!["-qR"@, "result"@],
{
    let r = Command {
        program: owned("nix-store"),
        args: vec![owned("-qR"), owned("result")],
        git_ssh_command: None,
    };
    assert(string_views(r.args@) =~= seq!["-qR"@, "result"@]);
    r
}

/// The step that follows a successful one; after the closure query the
/// subprocess work is done.
pub open spec fn step_after(step: Step) -> Option<Step> {
    match step {
        Step::Clone | Step::Fetch => Some(Step::CheckCommit),
        Step::CheckCommit => Some(Step::Archive),
        Step::Archive => Some(Step::Build),
        Step::Build => Some(Step::Query),
        Step::Query => None,
    }
}

/// The step to run after `step` succeeded, if any.
pub fn next_step(step: Step) -> (r: Option<Step>)
    ensures
        r == step_after(step),
{
    match step {
        Step::Clone | Step::Fetch => Some(Step::CheckCommit),
        Step::CheckCommit => Some(Step::Archive),
        Step::Archive => Some(Step::Build),
        Step::Build => Some(Step::Query),
        Step::Query => None,
    }
}

/// Everything the subprocess steps of one manifest request need.
pub struct BuildRequest {
    pub repo: RepoConfig,
    pub git_dir: String,
    pub archive_path: String,
    pub commit: String,
    pub attr_path: String,
}

impl BuildRequest {
    /// The program that runs at `step`.
    pub open spec fn program_of(step: Step) -> Seq<char> {
        match step {
            Step::Build => "nix-build"@,
            Step::Query => "nix-store"@,
            _ => "git"@,
        }
    }

    /// The arguments that `step` runs with.
    pub open spec fn args_of(&self, step: Step) -> Seq<Seq<char>> {
        match step {
            Step::Fetch => seq!["--git-dir"@, self.git_dir@, "fetch"@],
            Step::Clone => seq!["clone"@, "--bare"@, self.repo.url@, self.git_dir@],
            Step::CheckCommit => seq![
                "--git-dir"@,
                self.git_dir@,
                "cat-file"@,
                "-e"@,
                self.commit@ + "^{commit}"@,
            ],
            Step::Archive => seq![
                "--git-dir"@,
                self.git_dir@,
                "archive"@,
                "--prefix"@,
                ARCHIVE_PREFIX@,
                self.commit@,
            ],
            Step::Build => seq!["file:///"@ + self.archive_path@, "-A"@, self.attr_path@],
            Step::Query => seq!["-qR"@, "result"@],
        }
    }

    /// The command of `step`; only clone and fetch reach the network, so
    /// only they carry the SSH command.
    pub fn command(&self, step: Step) -> (r: Command)
        ensures
            r.program@ == Self::program_of(step),
            string_views(r.args@) == self.args_of(step),
            (step == Step::Clone || step == Step::Fetch) ==> (r.git_ssh_command matches Some(c)
                && c@ == self.repo.git_ssh_command_text()),
            !(step == Step::Clone || step == Step::Fetch) ==> r.git_ssh_command is None,
    {
        match step {
            Step::Fetch => sync_command(&self.repo, self.git_dir.as_str(), true),
            Step::Clone => sync_command(&self.repo, self.git_dir.as_str(), false),
            Step::CheckCommit => commit_check_command(self.git_dir.as_str(), self.commit.as_str()),
            Step::Archive => archive_command(self.git_dir.as_str(), self.commit.as_str()),
            Step::Build => build_command(self.archive_path.as_str(), self.attr_path.as_str()),
            Step::Query => query_command(),
        }
    }
}

/// Newline and NUL separate the paths of a closure listing.
pub open spec fn is_separator(b: u8) -> bool {
    b == 0x0a || b == 0
}

/// Reading a listing from the left: the entries completed so far, and the
/// bytes of the entry under way.
pub open spec fn scan_listing(s: Seq<u8>) -> (Seq<Seq<u8>>, Seq<u8>)
    decreases s.len(),
{
    if s.len() == 0 {
        (Seq::empty(), Seq::empty())
    } else {
        let (done, cur) = scan_listing(s.drop_last());
        if is_separator(s.last()) {
            (if cur.len() > 0 {
                done.push(cur)
            } else {
                done
            }, Seq::empty())
        } else {
            (done, cur.push(s.last()))
        }
    }
}

/// The entries of a listing: the runs of bytes between separators, with
/// empty runs skipped.
pub open spec fn listing_entries(s: Seq<u8>) -> Seq<Seq<u8>> {
    let (done, cur) = scan_listing(s);
    if cur.len() > 0 {
        done.push(cur)
    } else {
        done
    }
}

/// An entry that names a path: UTF-8 text that starts with `/`.
pub open spec fn is_absolute_path(e: Seq<u8>) -> bool {
    valid_utf8(e) && e.len() > 0 && e[0] == 0x2f
}

/// The entries of a listing, with empty ones skipped.
pub fn listing_entries_of(out: &[u8]) -> (r: Vec<Vec<u8>>)
    ensures
        byte_views(r@) == listing_entries(out@),
{
    let mut done: Vec<Vec<u8>> = Vec::new();
    let mut cur: Vec<u8> = Vec::new();
    let mut i: usize = 0;
    assert(out@.subrange(0, 0) =~= Seq::<u8>::empty());
    assert(byte_views(done@) =~= Seq::<Seq<u8>>::empty());
    while i < out.len()
        invariant
            0 <= i <= out@.len(),
            scan_listing(out@.subrange(0, i as int)) == (byte_views(done@), cur@),
        decreases out@.len() - i,
    {
        let b = out[i];
        let ghost pre = out@.subrange(0, i as int);
        let ghost post = out@.subrange(0, i as int + 1);
        let ghost v0 = byte_views(done@);
        assert(post.drop_last() =~= pre);
        assert(post.last() == b);
        if b == 0x0a || b == 0 {
            if cur.len() > 0 {
                let ghost c0 = cur@;
                done.push(cur);
                cur = Vec::new();
                assert(byte_views(done@) =~= v0.push(c0));
            } else {
                cur = Vec::new();
            }
        } else {
            cur.push(b);
        }
        i = i + 1;
    }
    let ghost v0 = byte_views(done@);
    assert(out@.subrange(0, out@.len() as int) =~= out@);
    if cur.len() > 0 {
        let ghost c0 = cur@;
        done.push(cur);
        assert(byte_views(done@) =~= v0.push(c0));
    }
    done
}

/// The closure listed in the query output `out`: one path per entry, in
/// order. Output with an entry that is not UTF-8 or not an absolute path is
/// malformed and gives `QueryFailed`.
pub fn parse_closure(out: &[u8]) -> (r: Result<Vec<String>, Error>)
    ensures
        r is Ok <==> forall|i: int|
            0 <= i < listing_entries(out@).len() ==> is_absolute_path(
                #[trigger] listing_entries(out@)[i],
            ),
        r matches Ok(p) ==> string_views(p@) == listing_entries(out@).map_values(
            |e: Seq<u8>| decode_utf8(e),
        ),
        r matches Err(e) ==> e == Error::QueryFailed,
{
    let entries = listing_entries_of(out);
    let ghost es = listing_entries(out@);
    let mut paths: Vec<String> = Vec::new();
    let mut k: usize = 0;
    while k < entries.len()
        invariant
            es == listing_entries(out@),
            byte_views(entries@) == es,
            0 <= k <= entries@.len(),
            forall|i: int| 0 <= i < k ==> is_absolute_path(#[trigger] es[i]),
            string_views(paths@) == es.subrange(0, k as int).map_values(
                |e: Seq<u8>| decode_utf8(e),
            ),
        decreases entries@.len() - k,
    {
        assert(es.len() == entries@.len());
        assert(es[k as int] == entries@[k as int]@);
        assert(listing_entries(out@)[k as int] == es[k as int]);
        let e = &entries[k];
        if e.len() == 0 || e[0] != 0x2f {
            assert(!is_absolute_path(es[k as int]));
            return Err(Error::QueryFailed);
        }
        let mut copy: Vec<u8> = Vec::new();
        push_bytes(&mut copy, e.as_slice());
        assert(copy@ =~= e@);
        match utf8_string(copy) {
            Some(p) => {
                let ghost v0 = string_views(paths@);
                paths.push(p);
                let ghost f = |e: Seq<u8>| decode_utf8(e);
                assert(string_views(paths@) =~= v0.push(decode_utf8(es[k as int])));
                assert(es.subrange(0, k as int + 1).map_values(f) =~= es.subrange(
                    0,
                    k as int,
                ).map_values(f).push(decode_utf8(es[k as int])));
            },
            None => {
                assert(!is_absolute_path(es[k as int]));
                return Err(Error::QueryFailed);
            },
        }
        k = k + 1;
    }
    assert(es.subrange(0, es.len() as int) =~= es);
    Ok(paths)
}

} // verus!
