use vstd::prelude::*;

verus! {

/// One step of repointing the `current` directory at a version's binary
/// directory.
pub enum LinkOp {
    /// Unlink this name from the target directory.
    Remove(String),
    /// Link this name in the target directory to the entry of the same
    /// name in the source directory.
    Link(String),
}

/// The target directory's contents after running `ops` in order. The
/// target and source directories are maps from entry name to content;
/// `Remove(n)` drops `n` from the target, `Link(n)` makes `n` resolve to
/// the source's content for `n`.
pub open spec fn apply_link_ops(
    cur: Map<Seq<char>, Seq<u8>>,
    source: Map<Seq<char>, Seq<u8>>,
    ops: Seq<LinkOp>,
) -> Map<Seq<char>, Seq<u8>>
    decreases ops.len(),
{
    if ops.len() == 0 {
        cur
    } else {
        let rest = ops.drop_first();
        match ops[0] {
            LinkOp::Remove(n) => apply_link_ops(cur.remove(n@), source, rest),
            LinkOp::Link(n) => apply_link_ops(cur.insert(n@, source[n@]), source, rest),
        }
    }
}

/// The operations that repoint the target directory: unlink every name
/// it now holds, then link every name of the source directory, in order.
pub fn activation_plan(old_names: &Vec<String>, new_names: &Vec<String>) -> (r: Vec<LinkOp>)
    ensures
        r@.len() == old_names@.len() + new_names@.len(),
        forall|q: int|
            0 <= q < old_names@.len() ==> (#[trigger] r@[q] matches LinkOp::Remove(n) && n@
                == old_names@[q]@),
        forall|q: int|
            0 <= q < new_names@.len() ==> (#[trigger] r@[old_names@.len() + q] matches LinkOp::Link(
                n,
            ) && n@ == new_names@[q]@),
{
    let mut ops: Vec<LinkOp> = Vec::new();
    let no = old_names.len();
    let mut k: usize = 0;
    while k < no
        invariant
            k <= no == old_names@.len(),
            ops@.len() == k,
            forall|q: int|
                0 <= q < k ==> (#[trigger] ops@[q] matches LinkOp::Remove(n) && n@
                    == old_names@[q]@),
        decreases no - k,
    {
        ops.push(LinkOp::Remove(old_names[k].clone()));
        k = k + 1;
    }
    let nn = new_names.len();
    let mut k: usize = 0;
    while k < nn
        invariant
            k <= nn == new_names@.len(),
            no == old_names@.len(),
            ops@.len() == no + k,
            forall|q: int|
                0 <= q < no ==> (#[trigger] ops@[q] matches LinkOp::Remove(n) && n@
                    == old_names@[q]@),
            forall|q: int|
                0 <= q < k ==> (#[trigger] ops@[no + q] matches LinkOp::Link(n) && n@
                    == new_names@[q]@),
        decreases nn - k,
    {
        ops.push(LinkOp::Link(new_names[k].clone()));
        k = k + 1;
    }
    ops
}

/// Running removals for every listed name empties the target: each of its
/// keys is among the removed names.
proof fn lemma_removes_clear(
    cur: Map<Seq<char>, Seq<u8>>,
    source: Map<Seq<char>, Seq<u8>>,
    ops: Seq<LinkOp>,
)
    requires
        forall|q: int| 0 <= q < ops.len() ==> (#[trigger] ops[q]) is Remove,
        forall|n: Seq<char>|
            cur.contains_key(n) ==> exists|q: int|
                0 <= q < ops.len() && ((#[trigger] ops[q]) matches LinkOp::Remove(m) && m@ == n),
    ensures
        apply_link_ops(cur, source, ops) =~= Map::<Seq<char>, Seq<u8>>::empty(),
    decreases ops.len(),
{
    if ops.len() == 0 {
        assert forall|n: Seq<char>| !cur.contains_key(n) by {
            if cur.contains_key(n) {
                let q = choose|q: int|
                    0 <= q < ops.len() && ((#[trigger] ops[q]) matches LinkOp::Remove(m) && m@
                        == n);
                assert(false);
            }
        }
        assert(cur =~= Map::<Seq<char>, Seq<u8>>::empty());
    } else {
        let rest = ops.drop_first();
        match ops[0] {
            LinkOp::Remove(m0) => {
                let cur2 = cur.remove(m0@);
                assert forall|n: Seq<char>| cur2.contains_key(n) implies exists|q: int|
                    0 <= q < rest.len() && ((#[trigger] rest[q]) matches LinkOp::Remove(m) && m@
                        == n) by {
                    assert(cur.contains_key(n));
                    let q = choose|q: int|
                        0 <= q < ops.len() && ((#[trigger] ops[q]) matches LinkOp::Remove(m)
                            && m@ == n);
                    assert(n != m0@);
                    assert(q >= 1);
                    assert(rest[q - 1] == ops[q]);
                }
                lemma_removes_clear(cur2, source, rest);
            },
            LinkOp::Link(m0) => {
                assert(false);
            },
        }
    }
}

/// Running links for every name of the source, starting from a target
/// that already agrees with the source wherever it holds anything,
/// leaves the target equal to the source.
proof fn lemma_links_fill(
    cur: Map<Seq<char>, Seq<u8>>,
    source: Map<Seq<char>, Seq<u8>>,
    ops: Seq<LinkOp>,
)
    requires
        forall|q: int|
            0 <= q < ops.len() ==> ((#[trigger] ops[q]) matches LinkOp::Link(m)
                && source.contains_key(m@)),
        forall|n: Seq<char>|
            #[trigger] cur.contains_key(n) ==> source.contains_key(n) && cur[n] == source[n],
        forall|n: Seq<char>|
            #[trigger] source.contains_key(n) ==> cur.contains_key(n) || exists|q: int|
                0 <= q < ops.len() && ((#[trigger] ops[q]) matches LinkOp::Link(m) && m@ == n),
    ensures
        apply_link_ops(cur, source, ops) =~= source,
    decreases ops.len(),
{
    if ops.len() == 0 {
        assert forall|n: Seq<char>| #[trigger] cur.dom().contains(n) implies source.dom().contains(
            n,
        ) by {
            assert(cur.contains_key(n));
        }
        assert forall|n: Seq<char>| #[trigger] source.dom().contains(n) implies cur.dom().contains(
            n,
        ) by {
            assert(source.contains_key(n));
            if !cur.contains_key(n) {
                let q = choose|q: int|
                    0 <= q < ops.len() && ((#[trigger] ops[q]) matches LinkOp::Link(m) && m@
                        == n);
                assert(false);
            }
        }
        assert forall|n: Seq<char>| #[trigger] cur.dom().contains(n) implies cur[n]
            == source[n] by {
            assert(cur.contains_key(n));
        }
        assert(cur =~= source);
    } else {
        let rest = ops.drop_first();
        assert(0 <= 0 < ops.len());
        assert(ops[0] matches LinkOp::Link(m) && source.contains_key(m@));
        match ops[0] {
            LinkOp::Link(m0) => {
                let cur2 = cur.insert(m0@, source[m0@]);
                assert(source.contains_key(m0@));
                assert forall|n: Seq<char>| #[trigger] cur2.contains_key(n) implies
                    source.contains_key(n) && cur2[n] == source[n] by {
                    if n != m0@ {
                        assert(cur.contains_key(n));
                    }
                }
                assert forall|q: int|
                    0 <= q < rest.len() implies ((#[trigger] rest[q]) matches LinkOp::Link(m)
                    && source.contains_key(m@)) by {
                    assert(rest[q] == ops[q + 1]);
                }
                assert forall|n: Seq<char>| #[trigger] source.contains_key(n) implies
                    cur2.contains_key(n) || exists|q: int|
                    0 <= q < rest.len() && ((#[trigger] rest[q]) matches LinkOp::Link(m) && m@
                        == n) by {
                    if !cur2.contains_key(n) {
                        assert(!cur.contains_key(n));
                        let q = choose|q: int|
                            0 <= q < ops.len() && ((#[trigger] ops[q]) matches LinkOp::Link(m)
                                && m@ == n);
                        assert(n != m0@);
                        assert(q >= 1);
                        assert(rest[q - 1] == ops[q]);
                    }
                }
                lemma_links_fill(cur2, source, rest);
            },
            LinkOp::Remove(m0) => {
                assert(false);
            },
        }
    }
}

/// Activation replaces the target directory: after running an activation
/// plan built from the target's current entry names and the source
/// directory's entry names, every name in the target resolves to the
/// source's content for that name, and no name survives that the source
/// does not hold.
pub proof fn lemma_activation_replaces(
    cur: Map<Seq<char>, Seq<u8>>,
    source: Map<Seq<char>, Seq<u8>>,
    ops: Seq<LinkOp>,
    old_names: Seq<String>,
    new_names: Seq<String>,
)
    requires
        ops.len() == old_names.len() + new_names.len(),
        forall|q: int|
            0 <= q < old_names.len() ==> (#[trigger] ops[q] matches LinkOp::Remove(n) && n@
                == old_names[q]@),
        forall|q: int|
            0 <= q < new_names.len() ==> (#[trigger] ops[old_names.len() + q] matches LinkOp::Link(
                n,
            ) && n@ == new_names[q]@),
        forall|n: Seq<char>|
            cur.contains_key(n) ==> exists|q: int| 0 <= q < old_names.len() && old_names[q]@ == n,
        forall|q: int| 0 <= q < new_names.len() ==> source.contains_key(#[trigger] new_names[q]@),
        forall|n: Seq<char>|
            source.contains_key(n) ==> exists|q: int| 0 <= q < new_names.len() && new_names[q]@
                == n,
    ensures
        apply_link_ops(cur, source, ops) == source,
{
    let no = old_names.len() as int;
    let removes = ops.subrange(0, no);
    let links = ops.subrange(no, ops.len() as int);
    lemma_apply_split(cur, source, removes, links);
    assert(removes + links =~= ops);
    assert forall|n: Seq<char>|
        cur.contains_key(n) implies exists|q: int|
        0 <= q < removes.len() && ((#[trigger] removes[q]) matches LinkOp::Remove(m) && m@
        == n) by {
        let q = choose|q: int| 0 <= q < old_names.len() && old_names[q]@ == n;
        assert(removes[q] == ops[q]);
        assert(removes[q] matches LinkOp::Remove(m) && m@ == n);
    }
    assert forall|q: int| 0 <= q < removes.len() implies (#[trigger] removes[q]) is Remove by {
        assert(removes[q] == ops[q]);
    }
    lemma_removes_clear(cur, source, removes);
    let mid = apply_link_ops(cur, source, removes);
    assert forall|q: int|
        0 <= q < links.len() implies (#[trigger] links[q] matches LinkOp::Link(m)
        && source.contains_key(m@)) by {
        assert(links[q] == ops[no + q]);
        assert(ops[no + q] matches LinkOp::Link(n) && n@ == new_names[q]@);
        assert(source.contains_key(new_names[q]@));
    }
    assert forall|n: Seq<char>|
        source.contains_key(n) implies mid.contains_key(n) || exists|q: int|
        0 <= q < links.len() && ((#[trigger] links[q]) matches LinkOp::Link(m) && m@ == n) by {
        let q = choose|q: int| 0 <= q < new_names.len() && new_names[q]@ == n;
        assert(links[q] == ops[no + q]);
        assert(links[q] matches LinkOp::Link(m) && m@ == n);
    }
    lemma_links_fill(mid, source, links);
}

/// Splitting an operation sequence runs its parts in order.
proof fn lemma_apply_split(
    cur: Map<Seq<char>, Seq<u8>>,
    source: Map<Seq<char>, Seq<u8>>,
    a: Seq<LinkOp>,
    b: Seq<LinkOp>,
)
    ensures
        apply_link_ops(cur, source, a + b) == apply_link_ops(
            apply_link_ops(cur, source, a),
            source,
            b,
        ),
    decreases a.len(),
{
    if a.len() == 0 {
        assert(a + b =~= b);
    } else {
        assert((a + b).drop_first() =~= a.drop_first() + b);
        assert((a + b)[0] == a[0]);
        match a[0] {
            LinkOp::Remove(n) => {
                lemma_apply_split(cur.remove(n@), source, a.drop_first(), b);
            },
            LinkOp::Link(n) => {
                lemma_apply_split(cur.insert(n@, source[n@]), source, a.drop_first(), b);
            },
        }
    }
}

} // verus!
