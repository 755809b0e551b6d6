//! The archive content sum: an order-independent fingerprint of a tar
//! archive. Each entry is hashed over a canonical text of its header
//! followed by its content; the hex digests are sorted, joined, and hashed
//! once more.
use crate::digest::{hex_ascii, hex_bytes, hex_lower, hex_of, is_lower_hex, lemma_hex_of_lower};
use crate::text::{decimal, push_bytes, push_decimal};
use sha2::Digest as _;
use vstd::prelude::*;
use vstd::relations::{sorted_by, total_ordering};
use vstd::string::StringSliceAdditionalSpecFns;

verus! {

/// The SHA-256 digest of a byte sequence, as the sha2 crate computes it.
pub uninterp spec fn sha2_sha256_of(data: Seq<u8>) -> Seq<u8>;

/// Relies on `sha2::Digest::digest` for `sha2::Sha256`: the 32-byte digest
/// of `data`.
#[verifier::external_body]
fn sha2_digest(data: &[u8]) -> (r: Vec<u8>)
    ensures
        r@ == sha2_sha256_of(data@),
        r@.len() == 32,
{
    sha2::Sha256::digest(data).to_vec()
}

/// The text in front of every content sum.
pub const TARSUM_PREFIX: &'static str = "tarsum.v1+sha256:";

/// One archive entry: the header fields that the sum reads, and the content.
pub struct TarEntry {
    pub path: Vec<u8>,
    pub mode: u32,
    pub uid: u64,
    pub gid: u64,
    pub size: u64,
    pub entry_type: u8,
    pub link_name: Vec<u8>,
    pub device_major: u32,
    pub device_minor: u32,
    pub content: Vec<u8>,
}

/// The UTF-8 form of the character whose code is `b`.
pub open spec fn char_utf8(b: u8) -> Seq<u8> {
    if b < 0x80 {
        seq![b]
    } else {
        seq![(0xc0 + b / 64) as u8, (0x80 + b % 64) as u8]
    }
}

/// The canonical header text: each field behind its label, in fixed order,
/// with empty owner and group names.
pub open spec fn canonical_header(e: TarEntry) -> Seq<u8> {
    "name".spec_bytes() + e.path@ + "mode".spec_bytes() + decimal(e.mode as nat)
        + header_after_mode(e)
}

/// The header text from the owner id on.
pub open spec fn header_after_mode(e: TarEntry) -> Seq<u8> {
    "uid".spec_bytes() + decimal(e.uid as nat) + "gid".spec_bytes() + decimal(e.gid as nat)
        + "size".spec_bytes() + decimal(e.size as nat) + "typeflag".spec_bytes() + char_utf8(
        e.entry_type,
    ) + header_from_link(e)
}

/// The header text from the link-name label on.
pub open spec fn header_from_link(e: TarEntry) -> Seq<u8> {
    "linkname".spec_bytes() + e.link_name@ + header_after_link(e)
}

/// The header text after the link name: empty owner and group names, then
/// the device numbers.
pub open spec fn header_after_link(e: TarEntry) -> Seq<u8> {
    "uname".spec_bytes() + "gname".spec_bytes() + "devmajor".spec_bytes() + decimal(
        e.device_major as nat,
    ) + "devminor".spec_bytes() + decimal(e.device_minor as nat)
}

/// The bytes hashed for one entry: its canonical header, then its content.
pub open spec fn entry_hash_input(e: TarEntry) -> Seq<u8> {
    canonical_header(e) + e.content@
}

/// The hex digest of one entry.
pub open spec fn entry_sum(e: TarEntry) -> Seq<u8> {
    hex_ascii(sha2_sha256_of(entry_hash_input(e)))
}

/// The entry digests, in entry order.
pub open spec fn entry_sums(entries: Seq<TarEntry>) -> Seq<Seq<u8>> {
    entries.map_values(|e: TarEntry| entry_sum(e))
}

/// Byte-wise lexicographic order; a prefix comes first.
pub open spec fn lex_le(a: Seq<u8>, b: Seq<u8>) -> bool
    decreases a.len(),
{
    if a.len() == 0 {
        true
    } else if b.len() == 0 {
        false
    } else if a[0] != b[0] {
        a[0] < b[0]
    } else {
        lex_le(a.drop_first(), b.drop_first())
    }
}

/// `lex_le` as a relation, the order in which entry digests are joined.
pub open spec fn lex_order() -> spec_fn(Seq<u8>, Seq<u8>) -> bool {
    |a: Seq<u8>, b: Seq<u8>| lex_le(a, b)
}

/// The content sum of an archive with these entries.
pub open spec fn tarsum_text(entries: Seq<TarEntry>) -> Seq<char> {
    TARSUM_PREFIX@ + hex_of(sha2_sha256_of(entry_sums(entries).sort_by(lex_order()).flatten()))
}

proof fn lemma_lex_refl(a: Seq<u8>)
    ensures
        lex_le(a, a),
    decreases a.len(),
{
    if a.len() > 0 {
        lemma_lex_refl(a.drop_first());
    }
}

proof fn lemma_lex_antisym(a: Seq<u8>, b: Seq<u8>)
    requires
        lex_le(a, b),
        lex_le(b, a),
    ensures
        a == b,
    decreases a.len(),
{
    if a.len() == 0 {
        assert(b.len() == 0);
        assert(a =~= b);
    } else {
        assert(b.len() > 0);
        assert(a[0] == b[0]);
        assert(lex_le(a.drop_first(), b.drop_first()));
        assert(lex_le(b.drop_first(), a.drop_first()));
        lemma_lex_antisym(a.drop_first(), b.drop_first());
        assert(a.len() == b.len());
        assert forall|i: int| 0 <= i < a.len() implies a[i] == b[i] by {
            if i > 0 {
                assert(a[i] == a.drop_first()[i - 1]);
                assert(b[i] == b.drop_first()[i - 1]);
            }
        }
        assert(a =~= b);
    }
}

proof fn lemma_lex_trans(a: Seq<u8>, b: Seq<u8>, c: Seq<u8>)
    requires
        lex_le(a, b),
        lex_le(b, c),
    ensures
        lex_le(a, c),
    decreases a.len(),
{
    if a.len() > 0 && b.len() > 0 && c.len() > 0 {
        if a[0] == b[0] && b[0] == c[0] {
            lemma_lex_trans(a.drop_first(), b.drop_first(), c.drop_first());
        }
    }
}

proof fn lemma_lex_total(a: Seq<u8>, b: Seq<u8>)
    ensures
        lex_le(a, b) || lex_le(b, a),
    decreases a.len(),
{
    if a.len() > 0 && b.len() > 0 && a[0] == b[0] {
        lemma_lex_total(a.drop_first(), b.drop_first());
    }
}

/// Lexicographic order on byte sequences is a total order.
pub proof fn lemma_lex_total_ordering()
    ensures
        total_ordering(lex_order()),
{
    let r = lex_order();
    assert forall|x: Seq<u8>| #[trigger] r(x, x) by {
        lemma_lex_refl(x);
    }
    assert forall|x: Seq<u8>, y: Seq<u8>| #[trigger] r(x, y) && #[trigger] r(y, x) implies x
        == y by {
        lemma_lex_antisym(x, y);
    }
    assert forall|x: Seq<u8>, y: Seq<u8>, z: Seq<u8>| #[trigger]
        r(x, y) && #[trigger] r(y, z) implies r(x, z) by {
        lemma_lex_trans(x, y, z);
    }
    assert forall|x: Seq<u8>, y: Seq<u8>| #[trigger] r(x, y) || #[trigger] r(y, x) by {
        lemma_lex_total(x, y);
    }
}

/// Whether `a` comes no later than `b` in lexicographic order.
pub fn lex_less_eq(a: &[u8], b: &[u8]) -> (r: bool)
    ensures
        r == lex_le(a@, b@),
{
    let mut i: usize = 0;
    assert(a@.skip(0) =~= a@);
    assert(b@.skip(0) =~= b@);
    while i < a.len() && i < b.len()
        invariant
            0 <= i <= a@.len(),
            i <= b@.len(),
            lex_le(a@, b@) == lex_le(a@.skip(i as int), b@.skip(i as int)),
        decreases a@.len() - i,
    {
        if a[i] != b[i] {
            return a[i] < b[i];
        }
        assert(a@.skip(i as int).drop_first() =~= a@.skip(i as int + 1));
        assert(b@.skip(i as int).drop_first() =~= b@.skip(i as int + 1));
        i = i + 1;
    }
    i == a.len()
}

fn push_label(out: &mut Vec<u8>, label: &str)
    ensures
        final(out)@ == old(out)@ + label.spec_bytes(),
{
    push_bytes(out, label.as_bytes());
}

/// The canonical header text of an entry.
pub fn canonical_header_representation(e: &TarEntry) -> (r: Vec<u8>)
    ensures
        r@ == canonical_header(*e),
{
    let mut after_link: Vec<u8> = Vec::new();
    push_label(&mut after_link, "uname");
    push_label(&mut after_link, "gname");
    push_label(&mut after_link, "devmajor");
    push_decimal(&mut after_link, e.device_major as u64);
    push_label(&mut after_link, "devminor");
    push_decimal(&mut after_link, e.device_minor as u64);
    assert(after_link@ =~= header_after_link(*e));

    let mut from_link: Vec<u8> = Vec::new();
    push_label(&mut from_link, "linkname");
    push_bytes(&mut from_link, e.link_name.as_slice());
    push_bytes(&mut from_link, after_link.as_slice());
    assert(from_link@ =~= header_from_link(*e));

    let mut after_mode: Vec<u8> = Vec::new();
    push_label(&mut after_mode, "uid");
    push_decimal(&mut after_mode, e.uid);
    push_label(&mut after_mode, "gid");
    push_decimal(&mut after_mode, e.gid);
    push_label(&mut after_mode, "size");
    push_decimal(&mut after_mode, e.size);
    push_label(&mut after_mode, "typeflag");
    if e.entry_type < 0x80 {
        after_mode.push(e.entry_type);
    } else {
        after_mode.push(0xc0 + e.entry_type / 64);
        after_mode.push(0x80 + e.entry_type % 64);
    }
    push_bytes(&mut after_mode, from_link.as_slice());
    assert(after_mode@ =~= header_after_mode(*e));

    let mut out: Vec<u8> = Vec::new();
    push_label(&mut out, "name");
    push_bytes(&mut out, e.path.as_slice());
    push_label(&mut out, "mode");
    push_decimal(&mut out, e.mode as u64);
    push_bytes(&mut out, after_mode.as_slice());
    assert(out@ =~= canonical_header(*e));
    out
}

/// The hex digest of one entry.
pub fn entry_sum_of(e: &TarEntry) -> (r: Vec<u8>)
    ensures
        r@ == entry_sum(*e),
{
    let mut data = canonical_header_representation(e);
    push_bytes(&mut data, e.content.as_slice());
    let d = sha2_digest(data.as_slice());
    hex_bytes(d.as_slice())
}

/// The views of byte vectors.
pub open spec fn byte_views(v: Seq<Vec<u8>>) -> Seq<Seq<u8>> {
    v.map_values(|x: Vec<u8>| x@)
}

proof fn lemma_insert_sorted(s: Seq<Seq<u8>>, p: int, x: Seq<u8>)
    requires
        0 <= p <= s.len(),
        sorted_by(s, lex_order()),
        forall|j: int| 0 <= j < p ==> lex_le(#[trigger] s[j], x),
        p < s.len() ==> lex_le(x, s[p]),
    ensures
        sorted_by(s.insert(p, x), lex_order()),
{
    let t = s.insert(p, x);
    assert forall|i: int, j: int| 0 <= i < j < t.len() implies #[trigger] lex_order()(
        t[i],
        t[j],
    ) by {
        if j < p {
            assert(t[i] == s[i] && t[j] == s[j]);
        } else if j == p {
            assert(t[i] == s[i] && t[j] == x);
        } else if i == p {
            assert(t[j] == s[j - 1]);
            if j - 1 > p {
                assert(lex_order()(s[p], s[j - 1]));
                lemma_lex_trans(x, s[p], s[j - 1]);
            }
        } else if i < p {
            assert(t[i] == s[i] && t[j] == s[j - 1]);
            assert(lex_order()(s[i], s[j - 1]));
        } else {
            assert(t[i] == s[i - 1] && t[j] == s[j - 1]);
            assert(lex_order()(s[i - 1], s[j - 1]));
        }
    }
}

/// The entry digests, sorted.
fn sorted_entry_sums(entries: &Vec<TarEntry>) -> (r: Vec<Vec<u8>>)
    ensures
        byte_views(r@) == entry_sums(entries@).sort_by(lex_order()),
{
    let mut out: Vec<Vec<u8>> = Vec::new();
    let mut i: usize = 0;
    assert(byte_views(out@) =~= entry_sums(entries@.subrange(0, 0)));
    while i < entries.len()
        invariant
            0 <= i <= entries@.len(),
            sorted_by(byte_views(out@), lex_order()),
            byte_views(out@).to_multiset() == entry_sums(
                entries@.subrange(0, i as int),
            ).to_multiset(),
        decreases entries@.len() - i,
    {
        let x = entry_sum_of(&entries[i]);
        let mut p: usize = 0;
        let mut found = false;
        while p < out.len() && !found
            invariant
                0 <= p <= out@.len(),
                found ==> p < out@.len() && lex_le(x@, out@[p as int]@),
                forall|j: int| 0 <= j < p ==> !lex_le(x@, #[trigger] out@[j]@),
            decreases out@.len() - p, if found { 0int } else { 1int },
        {
            if lex_less_eq(x.as_slice(), out[p].as_slice()) {
                found = true;
            } else {
                p = p + 1;
            }
        }
        let ghost before = byte_views(out@);
        proof {
            assert forall|j: int| 0 <= j < p implies lex_le(#[trigger] before[j], x@) by {
                lemma_lex_total(x@, before[j]);
            }
            lemma_insert_sorted(before, p as int, x@);
        }
        out.insert(p, x);
        proof {
            assert(byte_views(out@) =~= before.insert(p as int, x@));
            let pre = entries@.subrange(0, i as int);
            let post = entries@.subrange(0, i as int + 1);
            assert(entry_sums(post) =~= entry_sums(pre).push(entry_sum(entries@[i as int])));
            vstd::seq_lib::to_multiset_insert(before, p as int, x@);
            vstd::seq_lib::to_multiset_build(entry_sums(pre), x@);
        }
        i = i + 1;
    }
    proof {
        assert(entries@.subrange(0, entries@.len() as int) =~= entries@);
        let e = entry_sums(entries@);
        lemma_lex_total_ordering();
        e.lemma_sort_by_ensures(lex_order());
        vstd::seq_lib::lemma_sorted_unique(byte_views(out@), e.sort_by(lex_order()), lex_order());
    }
    out
}

/// The content sum of an archive with these entries: `tarsum.v1+sha256:`
/// and the hex digest of the sorted entry digests joined together.
pub fn tarsum(entries: &Vec<TarEntry>) -> (r: String)
    ensures
        r@ == tarsum_text(entries@),
        r@.len() == 81,
        r@.subrange(0, 17) == TARSUM_PREFIX@,
        forall|i: int| 17 <= i < 81 ==> is_lower_hex(#[trigger] r@[i]),
{
    let sums = sorted_entry_sums(entries);
    let ghost views = byte_views(sums@);
    let mut joined: Vec<u8> = Vec::new();
    let mut k: usize = 0;
    assert(views.take(0) =~= Seq::<Seq<u8>>::empty());
    while k < sums.len()
        invariant
            0 <= k <= sums@.len(),
            views == byte_views(sums@),
            joined@ == views.take(k as int).flatten_alt(),
        decreases sums@.len() - k,
    {
        push_bytes(&mut joined, sums[k].as_slice());
        assert(views.take(k as int + 1).drop_last() =~= views.take(k as int));
        k = k + 1;
    }
    proof {
        assert(views.take(views.len() as int) =~= views);
        views.lemma_flatten_and_flatten_alt_are_equivalent();
    }
    let d = sha2_digest(joined.as_slice());
    let mut s = String::from_str(TARSUM_PREFIX);
    let hex = hex_lower(d.as_slice());
    s.append(hex.as_str());
    proof {
        reveal_strlit("tarsum.v1+sha256:");
        lemma_hex_of_lower(d@);
        assert(TARSUM_PREFIX@.len() == 17);
        assert(s@.subrange(0, 17) =~= TARSUM_PREFIX@);
        assert forall|i: int| 17 <= i < 81 implies is_lower_hex(#[trigger] s@[i]) by {
            assert(s@[i] == hex@[i - 17]);
        }
    }
    s
}

proof fn lemma_map_multiset(a: Seq<TarEntry>, b: Seq<TarEntry>)
    requires
        a.to_multiset() == b.to_multiset(),
    ensures
        entry_sums(a).to_multiset() == entry_sums(b).to_multiset(),
    decreases a.len(),
{
    vstd::seq_lib::to_multiset_len(a);
    vstd::seq_lib::to_multiset_len(b);
    if a.len() == 0 {
        assert(entry_sums(a) =~= entry_sums(b));
    } else {
        let x = a.last();
        let n = a.len() - 1;
        vstd::seq_lib::to_multiset_contains(a, x);
        vstd::seq_lib::to_multiset_contains(b, x);
        assert(a[n] == x);
        assert(b.contains(x));
        let j = choose|j: int| 0 <= j < b.len() && b[j] == x;
        let a2 = a.remove(n);
        let b2 = b.remove(j);
        vstd::seq_lib::to_multiset_remove(a, n);
        vstd::seq_lib::to_multiset_remove(b, j);
        lemma_map_multiset(a2, b2);
        assert(entry_sums(a) =~= entry_sums(a2).push(entry_sum(x)));
        assert(entry_sums(b) =~= entry_sums(b2).insert(j, entry_sum(x)));
        vstd::seq_lib::to_multiset_build(entry_sums(a2), entry_sum(x));
        vstd::seq_lib::to_multiset_insert(entry_sums(b2), j, entry_sum(x));
    }
}

/// The content sum does not depend on the order of the entries: archives
/// whose entries are the same up to order have the same sum.
pub proof fn lemma_tarsum_order_independent(a: Seq<TarEntry>, b: Seq<TarEntry>)
    requires
        a.to_multiset() == b.to_multiset(),
    ensures
        tarsum_text(a) == tarsum_text(b),
{
    lemma_map_multiset(a, b);
    lemma_lex_total_ordering();
    let sa = entry_sums(a);
    let sb = entry_sums(b);
    sa.lemma_sort_by_ensures(lex_order());
    sb.lemma_sort_by_ensures(lex_order());
    vstd::seq_lib::lemma_sorted_unique(sa.sort_by(lex_order()), sb.sort_by(lex_order()), lex_order());
}

proof fn lemma_cancel(p: Seq<u8>, x: Seq<u8>, y: Seq<u8>, s: Seq<u8>)
    requires
        p + x + s == p + y + s,
    ensures
        x == y,
{
    let whole = p + x + s;
    assert(whole.len() == (p + y + s).len());
    assert(x.len() == y.len());
    let lo = p.len() as int;
    let hi = lo + x.len();
    assert(whole.subrange(lo, hi) =~= x);
    assert((p + y + s).subrange(lo, hi) =~= y);
}

proof fn lemma_decimal_len(n: nat)
    ensures
        decimal(n).len() >= 1,
        n >= 10 ==> decimal(n).len() >= 2,
    decreases n,
{
    if n >= 10 {
        lemma_decimal_len(n / 10);
    }
}

proof fn lemma_decimal_injective(a: nat, b: nat)
    requires
        decimal(a) == decimal(b),
    ensures
        a == b,
    decreases a,
{
    lemma_decimal_len(a);
    lemma_decimal_len(b);
    let da = decimal(a);
    let db = decimal(b);
    if a < 10 && b < 10 {
        assert(da == seq![(48 + a) as u8]);
        assert(db == seq![(48 + b) as u8]);
        assert(da[0] == db[0]);
    } else if a >= 10 && b >= 10 {
        lemma_decimal_len(a / 10);
        lemma_decimal_len(b / 10);
        assert(da == decimal(a / 10) + seq![(48 + a % 10) as u8]);
        assert(db == decimal(b / 10) + seq![(48 + b % 10) as u8]);
        let n = da.len();
        assert(da.drop_last() =~= decimal(a / 10));
        assert(db.drop_last() =~= decimal(b / 10));
        assert(da[n - 1] == (48 + a % 10) as u8);
        assert(db[n - 1] == (48 + b % 10) as u8);
        assert(a % 10 == b % 10);
        lemma_decimal_injective(a / 10, b / 10);
        assert(a == 10 * (a / 10) + a % 10);
        assert(b == 10 * (b / 10) + b % 10);
    } else if a < 10 {
        assert(da.len() == 1);
        assert(db.len() >= 2);
    } else {
        assert(da.len() >= 2);
        assert(db.len() == 1);
    }
}

/// Header fields other than path, mode and link name are equal.
pub open spec fn same_fixed_fields(a: TarEntry, b: TarEntry) -> bool {
    &&& a.uid == b.uid
    &&& a.gid == b.gid
    &&& a.size == b.size
    &&& a.entry_type == b.entry_type
    &&& a.device_major == b.device_major
    &&& a.device_minor == b.device_minor
}

/// Two entries that differ in exactly one of path, mode, link name and
/// content are hashed over different bytes. (That their digests then
/// differ rests on SHA-256, which nothing here can prove.)
proof fn lemma_path_change(a: TarEntry, b: TarEntry)
    requires
        same_fixed_fields(a, b),
        a.mode == b.mode,
        a.link_name@ == b.link_name@,
        a.content@ == b.content@,
        entry_hash_input(a) == entry_hash_input(b),
    ensures
        a.path@ == b.path@,
{
    let name = "name".spec_bytes();
    assert(header_from_link(a) == header_from_link(b));
    assert(header_after_mode(a) == header_after_mode(b));
    let s = "mode".spec_bytes() + decimal(a.mode as nat) + header_after_mode(a) + a.content@;
    assert(entry_hash_input(a) =~= name + a.path@ + s);
    assert(entry_hash_input(b) =~= name + b.path@ + s);
    lemma_cancel(name, a.path@, b.path@, s);
}

proof fn lemma_mode_change(a: TarEntry, b: TarEntry)
    requires
        same_fixed_fields(a, b),
        a.path@ == b.path@,
        a.link_name@ == b.link_name@,
        a.content@ == b.content@,
        entry_hash_input(a) == entry_hash_input(b),
    ensures
        a.mode == b.mode,
{
    assert(header_from_link(a) == header_from_link(b));
    assert(header_after_mode(a) == header_after_mode(b));
    let p = "name".spec_bytes() + a.path@ + "mode".spec_bytes();
    let s = header_after_mode(a) + a.content@;
    assert(entry_hash_input(a) =~= p + decimal(a.mode as nat) + s);
    assert(entry_hash_input(b) =~= p + decimal(b.mode as nat) + s);
    lemma_cancel(p, decimal(a.mode as nat), decimal(b.mode as nat), s);
    lemma_decimal_injective(a.mode as nat, b.mode as nat);
}

proof fn lemma_link_change(a: TarEntry, b: TarEntry)
    requires
        same_fixed_fields(a, b),
        a.path@ == b.path@,
        a.mode == b.mode,
        a.content@ == b.content@,
        entry_hash_input(a) == entry_hash_input(b),
    ensures
        a.link_name@ == b.link_name@,
{
    let p = "name".spec_bytes() + a.path@ + "mode".spec_bytes() + decimal(a.mode as nat);
    assert(entry_hash_input(a) =~= p + header_after_mode(a) + a.content@);
    assert(entry_hash_input(b) =~= p + header_after_mode(b) + a.content@);
    lemma_cancel(p, header_after_mode(a), header_after_mode(b), a.content@);
    let x = "uid".spec_bytes() + decimal(a.uid as nat) + "gid".spec_bytes() + decimal(
        a.gid as nat,
    ) + "size".spec_bytes() + decimal(a.size as nat) + "typeflag".spec_bytes() + char_utf8(
        a.entry_type,
    );
    assert(header_after_mode(a) =~= x + header_from_link(a) + Seq::empty());
    assert(header_after_mode(b) =~= x + header_from_link(b) + Seq::empty());
    lemma_cancel(x, header_from_link(a), header_from_link(b), Seq::empty());
    assert(header_after_link(a) == header_after_link(b));
    lemma_cancel("linkname".spec_bytes(), a.link_name@, b.link_name@, header_after_link(a));
}

proof fn lemma_content_change(a: TarEntry, b: TarEntry)
    requires
        same_fixed_fields(a, b),
        a.path@ == b.path@,
        a.mode == b.mode,
        a.link_name@ == b.link_name@,
        entry_hash_input(a) == entry_hash_input(b),
    ensures
        a.content@ == b.content@,
{
    let c = canonical_header(a);
    assert(c == canonical_header(b));
    assert(entry_hash_input(a) =~= c + a.content@ + Seq::empty());
    assert(entry_hash_input(b) =~= c + b.content@ + Seq::empty());
    lemma_cancel(c, a.content@, b.content@, Seq::empty());
}

/// Two entries that differ in exactly one of path, mode, link name and
/// content are hashed over different bytes. (That their digests then
/// differ rests on SHA-256, which nothing here can prove.)
pub proof fn lemma_single_change_changes_hash_input(a: TarEntry, b: TarEntry)
    requires
        same_fixed_fields(a, b),
    ensures
        a.path@ != b.path@ && a.mode == b.mode && a.link_name@ == b.link_name@ && a.content@
            == b.content@ ==> entry_hash_input(a) != entry_hash_input(b),
        a.path@ == b.path@ && a.mode != b.mode && a.link_name@ == b.link_name@ && a.content@
            == b.content@ ==> entry_hash_input(a) != entry_hash_input(b),
        a.path@ == b.path@ && a.mode == b.mode && a.link_name@ != b.link_name@ && a.content@
            == b.content@ ==> entry_hash_input(a) != entry_hash_input(b),
        a.path@ == b.path@ && a.mode == b.mode && a.link_name@ == b.link_name@ && a.content@
            != b.content@ ==> entry_hash_input(a) != entry_hash_input(b),
{
    if entry_hash_input(a) == entry_hash_input(b) {
        if a.mode == b.mode && a.link_name@ == b.link_name@ && a.content@ == b.content@ {
            lemma_path_change(a, b);
        }
        if a.path@ == b.path@ && a.link_name@ == b.link_name@ && a.content@ == b.content@ {
            lemma_mode_change(a, b);
        }
        if a.path@ == b.path@ && a.mode == b.mode && a.content@ == b.content@ {
            lemma_link_change(a, b);
        }
        if a.path@ == b.path@ && a.mode == b.mode && a.link_name@ == b.link_name@ {
            lemma_content_change(a, b);
        }
    }
}

} // verus!
