use vstd::prelude::*;

use crate::versions::{well_formed_version, version_key_of, version_nums, parse_version, Version};

verus! {

broadcast use vstd::seq_lib::group_to_multiset_ensures, vstd::multiset::group_multiset_axioms;

// ---------------------------------------------------------------------------
// Remote index entries
// ---------------------------------------------------------------------------

/// One published build flavour of a release.
#[derive(Clone, Copy, Debug, PartialEq, Eq, Structural)]
pub enum File {
    AixPpc64,
    Headers,
    LinuxArm64,
    LinuxArmv6L,
    LinuxArmv7L,
    LinuxPpc64Le,
    LinuxS390X,
    LinuxX64,
    LinuxX86,
    OsxArm64Tar,
    OsxX64Pkg,
    OsxX64Tar,
    OsxX86Tar,
    Src,
    SunosX64,
    SunosX86,
    WinX647Z,
    WinX64Exe,
    WinX64Msi,
    WinX64Zip,
    WinX867Z,
    WinX86Exe,
    WinX86Msi,
    WinX86Zip,
}

/// A long-term-support codename.
#[derive(Clone, Copy, Debug, PartialEq, Eq, Structural)]
pub enum LtsEnum {
    Argon,
    Boron,
    Carbon,
    Dubnium,
    Erbium,
    Fermium,
    Gallium,
}

/// The zlib version a release was built with.
#[derive(Clone, Copy, Debug, PartialEq, Eq, Structural)]
pub enum Zlib {
    The1211,
    The123,
    The128,
}

/// The long-term-support field of an index entry: boolean `false` for a
/// release that is not LTS, boolean `true` or a codename for one that is.
#[derive(Clone, Copy, Debug, PartialEq, Eq, Structural)]
pub enum LtsUnion {
    Bool(bool),
    Enum(LtsEnum),
}

impl Default for LtsUnion {
    fn default() -> (r: Self)
        ensures
            r == LtsUnion::Bool(false),
    {
        LtsUnion::Bool(false)
    }
}

/// One release of the published index.
#[derive(Clone, Debug, PartialEq, Eq)]
pub struct NodeIndexElement {
    pub version: String,
    pub date: String,
    pub files: Vec<File>,
    pub npm: Option<String>,
    pub v8: String,
    pub uv: Option<String>,
    pub zlib: Option<Zlib>,
    pub openssl: Option<String>,
    pub modules: Option<String>,
    pub lts: LtsUnion,
    pub security: bool,
}

impl Default for NodeIndexElement {
    fn default() -> (r: Self)
        ensures
            r.version@ == Seq::<char>::empty(),
            r.date@ == Seq::<char>::empty(),
            r.files@ == Seq::<File>::empty(),
            r.npm is None,
            r.v8@ == Seq::<char>::empty(),
            r.uv is None,
            r.zlib is None,
            r.openssl is None,
            r.modules is None,
            r.lts == LtsUnion::Bool(false),
            r.security == false,
    {
        NodeIndexElement {
            version: String::new(),
            date: String::new(),
            files: Vec::new(),
            npm: None,
            v8: String::new(),
            uv: None,
            zlib: None,
            openssl: None,
            modules: None,
            lts: LtsUnion::Bool(false),
            security: false,
        }
    }
}

pub type NodeIndex = Vec<NodeIndexElement>;

/// Whether an entry advertises a long-term-support release.
pub open spec fn is_lts(e: NodeIndexElement) -> bool {
    e.lts != LtsUnion::Bool(false)
}

/// Error for a request no index entry can satisfy.
#[derive(Clone, Copy, Debug, PartialEq, Eq, Structural)]
pub enum ResolutionError {
    EmptyIndex,
    NoLtsRelease,
}

// ---------------------------------------------------------------------------
// Sorting
// ---------------------------------------------------------------------------

/// The numeric sort key a well-formed version string denotes.
pub open spec fn entry_key_seq(s: Seq<char>) -> u64 {
    let (a, b, c) = version_nums(s);
    version_key_of(a as u32, b as u32, c as u32)
}

/// Every entry of the sequence carries a well-formed version string.
pub open spec fn index_wf(s: Seq<NodeIndexElement>) -> bool {
    forall|p: int| 0 <= p < s.len() ==> well_formed_version(#[trigger] s[p].version@)
}

/// The entries are ordered by descending numeric version key.
pub open spec fn index_sorted_desc(s: Seq<NodeIndexElement>) -> bool {
    forall|p: int, q: int|
        0 <= p < q < s.len() ==> #[trigger] entry_key_seq(s[q].version@) <= #[trigger] entry_key_seq(
            s[p].version@,
        )
}

/// The numeric sort key of an entry.
fn entry_key(e: &NodeIndexElement) -> (r: u64)
    requires
        well_formed_version(e.version@),
    ensures
        r == entry_key_seq(e.version@),
{
    match parse_version(e.version.as_str()) {
        Ok((a, b, c)) => ((a as u64) << 16) | ((b as u64) << 8) | (c as u64),
        Err(_) => {
            proof {
                assert(false);
            }
            0
        },
    }
}

/// Sorts the index by descending numeric version key; the entries are
/// rearranged and none is added, dropped or altered.
pub fn sort_index(index: &mut Vec<NodeIndexElement>)
    requires
        index_wf(old(index)@),
    ensures
        index_wf(final(index)@),
        index_sorted_desc(final(index)@),
        final(index)@.to_multiset() == old(index)@.to_multiset(),
        final(index)@.len() == old(index)@.len(),
{
    let ghost orig = index@;
    if index.len() <= 1 {
        return ;
    }
    let mut i: usize = 1;
    while i < index.len()
        invariant
            1 <= i <= index@.len(),
            index@.len() == orig.len(),
            index_wf(index@),
            index_sorted_desc(index@.subrange(0, i as int)),
            index@.to_multiset() == orig.to_multiset(),
        decreases index@.len() - i,
    {
        let ki = entry_key(&index[i]);
        let mut p: usize = 0;
        while p < i && entry_key(&index[p]) >= ki
            invariant
                0 <= p <= i < index@.len(),
                index_wf(index@),
                ki == entry_key_seq(index@[i as int].version@),
                index_sorted_desc(index@.subrange(0, i as int)),
                forall|q: int| 0 <= q < p ==> entry_key_seq(#[trigger] index@[q].version@) >= ki,
            decreases i - p,
        {
            p = p + 1;
        }
        if p < i {
            let ghost before = index@;
            let x = index.remove(i);
            index.insert(p, x);
            proof {
                let after = index@;
                assert(after =~= before.subrange(0, p as int) + seq![x] + before.subrange(
                    p as int,
                    i as int,
                ) + before.subrange(i + 1, before.len() as int));
                assert(before.to_multiset().count(x) > 0) by {
                    assert(before[i as int] == x);
                    assert(before.contains(x));
                }
                assert(after.to_multiset() =~= before.to_multiset());
                assert forall|q: int| 0 <= q < after.len() implies well_formed_version(
                    #[trigger] after[q].version@,
                ) by {
                    if q < p {
                        assert(after[q] == before[q]);
                    } else if q == p {
                        assert(after[q] == before[i as int]);
                    } else if q <= i {
                        assert(after[q] == before[q - 1]);
                    } else {
                        assert(after[q] == before[q]);
                    }
                }
                assert forall|a: int, b: int| 0 <= a < b < i + 1 implies entry_key_seq(
                    after[b].version@,
                ) <= entry_key_seq(after[a].version@) by {
                    let kx = entry_key_seq(x.version@);
                    assert(before[i as int] == x);
                    assert(entry_key_seq(before[p as int].version@) < kx);
                    if a < p {
                        assert(after[a] == before[a]);
                        assert(entry_key_seq(before[a].version@) >= ki);
                        assert(entry_key_seq(after[a].version@) >= kx);
                    }
                    if a == p {
                        assert(after[a] == x);
                    }
                    if a > p {
                        assert(after[a] == before[a - 1]);
                    }
                    if b < p {
                        assert(after[b] == before[b]);
                    }
                    if b == p {
                        assert(after[b] == x);
                    }
                    if b > p {
                        assert(after[b] == before[b - 1]);
                        assert(p <= b - 1 < i);
                        let sub = before.subrange(0, i as int);
                        assert(sub[b - 1] == before[b - 1]);
                        assert(sub[p as int] == before[p as int]);
                        if p < b - 1 {
                            assert(entry_key_seq(sub[b - 1].version@) <= entry_key_seq(
                                sub[p as int].version@,
                            ));
                        }
                        assert(entry_key_seq(before[b - 1].version@) <= entry_key_seq(
                            before[p as int].version@,
                        ));
                    }
                }
            }
        } else {
            proof {
                let cur = index@;
                let sub = cur.subrange(0, i as int);
                assert forall|a: int, b: int| 0 <= a < b < i + 1 implies entry_key_seq(
                    cur[b].version@,
                ) <= entry_key_seq(cur[a].version@) by {
                    assert(sub[a] == cur[a]);
                    if b == i {
                        assert(entry_key_seq(cur[a].version@) >= ki);
                    } else {
                        assert(sub[b] == cur[b]);
                        assert(entry_key_seq(sub[b].version@) <= entry_key_seq(sub[a].version@));
                    }
                }
            }
        }
        i = i + 1;
        proof {
            assert(index_sorted_desc(index@.subrange(0, i as int)));
        }
    }
    proof {
        assert(index@.subrange(0, index@.len() as int) =~= index@);
    }
}


// ---------------------------------------------------------------------------
// Canonical index
// ---------------------------------------------------------------------------

/// The subsequence of entries whose version string is well-formed.
pub open spec fn keep_wf(s: Seq<NodeIndexElement>) -> Seq<NodeIndexElement>
    decreases s.len(),
{
    if s.len() == 0 {
        Seq::empty()
    } else if well_formed_version(s[0].version@) {
        seq![s[0]] + keep_wf(s.drop_first())
    } else {
        keep_wf(s.drop_first())
    }
}

/// Restricts a fetched index to its entries with a well-formed version
/// string, in fetch order, and sorts them by descending version key.
pub fn canonicalize_index(index: Vec<NodeIndexElement>) -> (r: Vec<NodeIndexElement>)
    ensures
        index_wf(r@),
        index_sorted_desc(r@),
        r@.to_multiset() == keep_wf(index@).to_multiset(),
{
    let ghost orig = index@;
    let mut rest = index;
    let mut out: Vec<NodeIndexElement> = Vec::new();
    while rest.len() > 0
        invariant
            index_wf(out@),
            keep_wf(orig) == out@ + keep_wf(rest@),
        decreases rest@.len(),
    {
        let ghost cur = rest@;
        let e = rest.remove(0);
        proof {
            assert(cur[0] == e);
            assert(cur.drop_first() =~= rest@);
        }
        match parse_version(e.version.as_str()) {
            Ok(_) => {
                out.push(e);
                proof {
                    assert(keep_wf(cur) == seq![e] + keep_wf(cur.drop_first()));
                    assert(out@ + keep_wf(rest@) =~= keep_wf(orig));
                }
            },
            Err(_) => {
                proof {
                    assert(keep_wf(cur) == keep_wf(cur.drop_first()));
                }
            },
        }
    }
    proof {
        assert(keep_wf(rest@) =~= Seq::<NodeIndexElement>::empty());
        assert(out@ =~= keep_wf(orig));
    }
    sort_index(&mut out);
    out
}

// ---------------------------------------------------------------------------
// Resolution
// ---------------------------------------------------------------------------

/// The version an index entry denotes; meaningful when its version string
/// is well-formed.
pub open spec fn entry_version(e: NodeIndexElement) -> Version {
    let (a, b, c) = version_nums(e.version@);
    Version { major: a as u32, minor: b as u32, patch: c as u32 }
}

/// Resolves `latest`: the first entry of the index, which after canonical
/// sorting carries the highest version. Fails exactly on an empty index.
pub fn resolve_latest(index: &Vec<NodeIndexElement>) -> (r: Result<Version, ResolutionError>)
    requires
        index_wf(index@),
    ensures
        r is Ok <==> index@.len() > 0,
        r matches Ok(v) ==> v == entry_version(index@[0]),
        r is Err ==> r == Result::<Version, ResolutionError>::Err(ResolutionError::EmptyIndex),
{
    if index.len() == 0 {
        return Err(ResolutionError::EmptyIndex);
    }
    match parse_version(index[0].version.as_str()) {
        Ok((a, b, c)) => Ok(Version::new(a, b, c)),
        Err(_) => {
            proof {
                assert(false);
            }
            Err(ResolutionError::EmptyIndex)
        },
    }
}

/// Resolves `lts`: the first entry whose LTS field is not boolean `false`.
/// On a descending-sorted index this is the newest LTS release. Fails
/// exactly when no entry qualifies.
pub fn resolve_lts(index: &Vec<NodeIndexElement>) -> (r: Result<Version, ResolutionError>)
    requires
        index_wf(index@),
    ensures
        r is Ok <==> exists|k: int| 0 <= k < index@.len() && is_lts(#[trigger] index@[k]),
        r matches Ok(v) ==> exists|k: int|
            0 <= k < index@.len() && is_lts(#[trigger] index@[k]) && (forall|q: int|
                0 <= q < k ==> !is_lts(#[trigger] index@[q])) && v == entry_version(index@[k]),
        r is Err ==> r == Result::<Version, ResolutionError>::Err(ResolutionError::NoLtsRelease),
{
    let n = index.len();
    let mut k: usize = 0;
    while k < n
        invariant
            k <= n == index@.len(),
            index_wf(index@),
            forall|q: int| 0 <= q < k ==> !is_lts(#[trigger] index@[q]),
        decreases n - k,
    {
        let found = match &index[k].lts {
            LtsUnion::Bool(b) => *b,
            LtsUnion::Enum(_) => true,
        };
        if found {
            proof {
                assert(is_lts(index@[k as int]));
            }
            match parse_version(index[k].version.as_str()) {
                Ok((a, b, c)) => {
                    return Ok(Version::new(a, b, c));
                },
                Err(_) => {
                    proof {
                        assert(false);
                    }
                    return Err(ResolutionError::NoLtsRelease);
                },
            }
        }
        proof {
            assert(!is_lts(index@[k as int]));
        }
        k = k + 1;
    }
    Err(ResolutionError::NoLtsRelease)
}

} // verus!
