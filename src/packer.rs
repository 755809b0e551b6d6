//! The layer packer: a closure is cut into at most a hundred consecutive
//! groups of paths, and each group becomes one uncompressed tar layer whose
//! digest and size are taken over the archive bytes as they are stored.
use crate::digest::{digest_text, is_digest_text, sha256_of};
use crate::hash_write::HashAndWrite;
use vstd::prelude::*;

verus! {

/// The media type of a stored layer: an uncompressed tar archive, which is
/// what the packer writes.
pub const LAYER_MEDIA_TYPE: &'static str = "application/vnd.docker.image.rootfs.diff.tar";

/// One packed archive of a closure group, as stored and referenced.
pub struct Layer {
    pub media_type: String,
    pub digest: String,
    pub size: usize,
}

impl Layer {
    /// The layer record of an archive whose bytes went through `archive`.
    pub fn from_archive(archive: &HashAndWrite) -> (r: Layer)
        requires
            archive.wf(),
        ensures
            r.media_type@ == LAYER_MEDIA_TYPE@,
            r.digest@ == digest_text(sha256_of(archive@)),
            is_digest_text(r.digest@),
            r.size as int == archive@.len(),
    {
        Layer {
            media_type: String::from_str(LAYER_MEDIA_TYPE),
            digest: archive.get_digest(),
            size: archive.get_size(),
        }
    }
}

/// The name under which `path` and its subtree go into a layer archive:
/// the path with its leading separator taken off.
pub open spec fn archive_name_of(path: Seq<char>) -> Seq<char> {
    if path.len() > 0 && path[0] == '/' {
        path.drop_first()
    } else {
        path
    }
}

/// The relative name for an absolute closure path inside a layer archive.
pub fn archive_name(path: &str) -> (r: String)
    ensures
        r@ == archive_name_of(path@),
{
    let n = path.unicode_len();
    if n > 0 && path.get_char(0) == '/' {
        let rest = path.substring_char(1, n);
        assert(rest@ =~= path@.drop_first());
        rest.to_string()
    } else {
        path.to_string()
    }
}

/// Paths per group for a closure of `n` paths.
pub open spec fn group_size(n: nat) -> nat {
    n / 100 + 1
}

/// `n / g` rounded up.
pub open spec fn ceil_div(n: nat, g: nat) -> nat
    recommends
        g > 0,
{
    ((n + g - 1) / g as int) as nat
}

/// The `k`-th group of `g` consecutive items of `s`; the last may be short.
pub open spec fn chunk<T>(s: Seq<T>, g: nat, k: int) -> Seq<T> {
    s.subrange(k * g, if (k + 1) * g <= s.len() { (k + 1) * g } else { s.len() as int })
}

/// `s` cut into consecutive groups of `g`.
pub open spec fn chunks<T>(s: Seq<T>, g: nat) -> Seq<Seq<T>> {
    Seq::new(ceil_div(s.len(), g), |k: int| chunk(s, g, k))
}

/// The groups of a closure: one empty group for an empty closure, otherwise
/// consecutive groups of `group_size` paths.
pub open spec fn closure_groups<T>(s: Seq<T>) -> Seq<Seq<T>> {
    if s.len() == 0 {
        seq![Seq::empty()]
    } else {
        chunks(s, group_size(s.len()))
    }
}

/// The views of the groups.
pub open spec fn groups_view(r: Seq<Vec<String>>) -> Seq<Seq<String>> {
    r.map_values(|g: Vec<String>| g@)
}

proof fn lemma_ceil_div(n: nat, g: nat, k: nat)
    requires
        g > 0,
        k * g >= n,
        k == 0 || (k - 1) * g < n,
    ensures
        k == ceil_div(n, g),
{
    let c = ceil_div(n, g) as int;
    assert(c * g <= n + g - 1 && n + g - 1 < c * g + g) by (nonlinear_arith)
        requires
            c == (n + g - 1) / (g as int),
            g > 0,
            n >= 0,
    ;
    if k > c {
        assert(false) by (nonlinear_arith)
            requires
                k - 1 >= c,
                c * g > n - 1,
                (k - 1) * g < n,
                g > 0,
        ;
    } else if k < c {
        assert(false) by (nonlinear_arith)
            requires
                k <= c - 1,
                c * g <= n + g - 1,
                k * g >= n,
                g > 0,
        ;
    }
}

proof fn lemma_ceil_bounds(n: nat, g: nat)
    requires
        g > 0,
    ensures
        ceil_div(n, g) * g >= n,
        ceil_div(n, g) > 0 ==> (ceil_div(n, g) - 1) * g < n,
{
    let c = ceil_div(n, g) as int;
    assert(c * g <= n + g - 1 && n + g - 1 < c * g + g) by (nonlinear_arith)
        requires
            c == (n + g - 1) / (g as int),
            g > 0,
            n >= 0,
    ;
    assert((c - 1) * g == c * g - g) by (nonlinear_arith);
}

proof fn lemma_chunks_prefix<T>(s: Seq<T>, g: nat, k: nat)
    requires
        g > 0,
        k <= ceil_div(s.len(), g),
    ensures
        chunks(s, g).take(k as int).flatten_alt() == s.subrange(
            0,
            if k * g <= s.len() { (k * g) as int } else { s.len() as int },
        ),
    decreases k,
{
    lemma_ceil_bounds(s.len(), g);
    let cs = chunks(s, g);
    if k == 0 {
        assert(cs.take(0) =~= Seq::<Seq<T>>::empty());
        assert(s.subrange(0, 0) =~= Seq::<T>::empty());
    } else {
        lemma_chunks_prefix(s, g, (k - 1) as nat);
        assert(cs.take(k as int).drop_last() =~= cs.take(k - 1));
        let j = k - 1;
        assert(j * g < s.len()) by (nonlinear_arith)
            requires
                j <= ceil_div(s.len(), g) - 1,
                (ceil_div(s.len(), g) - 1) * g < s.len(),
                g > 0,
        ;
        assert((j + 1) * g == j * g + g) by (nonlinear_arith);
        assert(s.subrange(0, j * g) + chunk(s, g, j as int) =~= s.subrange(
            0,
            if k * g <= s.len() { (k * g) as int } else { s.len() as int },
        ));
    }
}

/// For a nonempty closure of `n` paths and `g = n / 100 + 1`: there are
/// `ceil(n / g)` groups, none holds more than `g` paths, and the groups
/// joined in order give back the closure.
pub proof fn lemma_closure_groups(s: Seq<String>)
    requires
        s.len() > 0,
    ensures
        closure_groups(s).len() == ceil_div(s.len(), group_size(s.len())),
        forall|k: int|
            0 <= k < closure_groups(s).len() ==> (#[trigger] closure_groups(s)[k]).len()
                <= group_size(s.len()),
        closure_groups(s).flatten() == s,
{
    let g = group_size(s.len());
    let c = ceil_div(s.len(), g);
    lemma_ceil_bounds(s.len(), g);
    assert forall|k: int| 0 <= k < closure_groups(s).len() implies (#[trigger] closure_groups(
        s,
    )[k]).len() <= g by {
        assert(k * g < s.len()) by (nonlinear_arith)
            requires
                0 <= k <= c - 1,
                (c - 1) * g < s.len(),
                g > 0,
        ;
        assert((k + 1) * g == k * g + g) by (nonlinear_arith);
    }
    lemma_chunks_prefix(s, g, c);
    assert(chunks(s, g).take(c as int) =~= chunks(s, g));
    chunks(s, g).lemma_flatten_and_flatten_alt_are_equivalent();
    assert(s.subrange(0, s.len() as int) =~= s);
}

/// Cuts a closure into the groups that become layers, keeping its order.
pub fn layer_groups(paths: &Vec<String>) -> (r: Vec<Vec<String>>)
    ensures
        groups_view(r@) == closure_groups(paths@),
{
    let n = paths.len();
    let mut groups: Vec<Vec<String>> = Vec::new();
    if n == 0 {
        groups.push(Vec::new());
        assert(groups_view(groups@) =~= closure_groups(paths@));
        return groups;
    }
    let g = n / 100 + 1;
    let ghost gg = group_size(n as nat);
    assert(g == gg);
    let mut i: usize = 0;
    assert(groups@.len() == 0);
    assert(groups@.len() * gg == 0) by (nonlinear_arith)
        requires
            groups@.len() == 0,
    ;
    while i < n
        invariant
            n == paths@.len(),
            n > 0,
            g == gg,
            gg == group_size(n as nat),
            0 <= i <= n,
            i < n ==> i == groups@.len() * gg,
            i == n ==> groups@.len() * gg >= n,
            groups@.len() == 0 || (groups@.len() - 1) * gg < n,
            forall|k: int|
                0 <= k < groups@.len() ==> (#[trigger] groups@[k])@ == chunk(paths@, gg, k),
        decreases n - i,
    {
        let k = Ghost(groups@.len() as int);
        let end: usize = if n - i <= g { n } else { i + g };
        let mut grp: Vec<String> = Vec::new();
        let mut j: usize = i;
        while j < end
            invariant
                i <= j <= end <= n,
                n == paths@.len(),
                grp@ == paths@.subrange(i as int, j as int),
            decreases end - j,
        {
            grp.push(paths[j].clone());
            j = j + 1;
            assert(grp@ =~= paths@.subrange(i as int, j as int));
        }
        assert(grp@ == chunk(paths@, gg, k@)) by {
            assert((k@ + 1) * gg == k@ * gg + gg) by (nonlinear_arith);
        }
        let ghost before = groups@;
        groups.push(grp);
        proof {
            assert((k@ + 1) * gg == k@ * gg + gg) by (nonlinear_arith);
            assert forall|m: int| 0 <= m < groups@.len() implies (#[trigger] groups@[m])@ == chunk(
                paths@,
                gg,
                m,
            ) by {
                if m < k@ {
                    assert(groups@[m] == before[m]);
                }
            }
        }
        i = end;
    }
    proof {
        lemma_ceil_div(n as nat, gg, groups@.len());
    }
    assert(groups_view(groups@) =~= closure_groups(paths@));
    groups
}

} // verus!
