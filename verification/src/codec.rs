//! Flatten/rebuild codec for persistence.
//!
//! Encoding linearizes a tree into its preorder record sequence: each
//! record carries the node's item, branch role, id, and a shape flag
//! saying which outgoing links the node had.  No tree pointers are
//! written; the shape flags alone let the decoder rebuild an equal tree.
//! Decoding rejects, rather than guesses at, any sequence that no
//! well-formed tree encodes to.

use vstd::prelude::*;

use crate::scenario_node::BranchType;
use crate::scenario_node::HasBranches;
use crate::scenario_node::ScenarioNode;

verus! {

/// One record of the flattened form of a tree.
#[derive(Debug)]
pub struct ScenarioNodeSerde {
    pub value: crate::scenario_node::Item,
    pub bt: BranchType,
    pub id: i32,
    pub has_n_and_c: HasBranches,
}

/// The shape flag of a node: which outgoing links it has.
pub open spec fn shape_of(t: ScenarioNode) -> HasBranches {
    match (t.child, t.neighbor) {
        (Some(_), Some(_)) => HasBranches::Both,
        (Some(_), None) => HasBranches::Child,
        (None, Some(_)) => HasBranches::Neighbor,
        (None, None) => HasBranches::Leaf,
    }
}

/// The record a node flattens to.
pub open spec fn rec_of(t: ScenarioNode) -> ScenarioNodeSerde {
    ScenarioNodeSerde { value: t.value, bt: t.bt, id: t.id, has_n_and_c: shape_of(t) }
}

/// The preorder (node, child subtree, neighbor subtree) record sequence
/// of a tree.
pub open spec fn spec_encode(t: ScenarioNode) -> Seq<ScenarioNodeSerde>
    decreases t,
{
    seq![rec_of(t)] + opt_encode(t.child) + opt_encode(t.neighbor)
}

pub open spec fn opt_encode(o: Option<Box<ScenarioNode>>) -> Seq<ScenarioNodeSerde>
    decreases o,
{
    match o {
        None => Seq::empty(),
        Some(t) => spec_encode(*t),
    }
}

/// Branch roles are consistent with the links that reach each node: a
/// child-link target carries `Child`, a neighbor-link target `Neighbor`,
/// and a root carries `Child` by convention.
pub open spec fn node_roles_ok(t: ScenarioNode, expect: BranchType) -> bool
    decreases t,
{
    t.bt == expect && opt_roles_ok(t.child, BranchType::Child) && opt_roles_ok(
        t.neighbor,
        BranchType::Neighbor,
    )
}

pub open spec fn opt_roles_ok(o: Option<Box<ScenarioNode>>, expect: BranchType) -> bool
    decreases o,
{
    match o {
        None => true,
        Some(t) => node_roles_ok(*t, expect),
    }
}

/// No record sequence begins with the encodings of two different trees:
/// the shape flags pin the whole structure down.
pub proof fn lemma_encode_prefix_free(
    a: ScenarioNode,
    b: ScenarioNode,
    x: Seq<ScenarioNodeSerde>,
    y: Seq<ScenarioNodeSerde>,
)
    requires
        spec_encode(a) + x == spec_encode(b) + y,
    ensures
        a == b,
        x == y,
    decreases a,
{
    let s = spec_encode(a) + x;
    assert(s[0] == rec_of(a));
    assert(s[0] == rec_of(b));
    assert(a.child is Some <==> b.child is Some);
    assert(a.neighbor is Some <==> b.neighbor is Some);
    let ua = opt_encode(a.child) + (opt_encode(a.neighbor) + x);
    let ub = opt_encode(b.child) + (opt_encode(b.neighbor) + y);
    assert(seq![rec_of(a)] + ua =~= s);
    assert(seq![rec_of(b)] + ub =~= spec_encode(b) + y);
    assert(ua =~= ub) by {
        assert(forall|i: int|
            0 <= i < ua.len() ==> ua[i] == (seq![rec_of(a)] + ua)[i + 1] && ub[i] == (seq![
                rec_of(b),
            ] + ub)[i + 1]);
    }
    match (a.child, b.child) {
        (Some(ac), Some(bc)) => {
            lemma_encode_prefix_free(
                *ac,
                *bc,
                opt_encode(a.neighbor) + x,
                opt_encode(b.neighbor) + y,
            );
        },
        _ => {},
    }
    match (a.neighbor, b.neighbor) {
        (Some(an), Some(bn)) => {
            lemma_encode_prefix_free(*an, *bn, x, y);
        },
        _ => {},
    }
    assert(a == b);
}

/// Two encodings laid down at the same start of one sequence are the
/// same encoding of the same tree.
pub proof fn lemma_encode_align(
    a: ScenarioNode,
    b: ScenarioNode,
    s: Seq<ScenarioNodeSerde>,
    i: int,
    j: int,
    k: int,
)
    requires
        0 <= i <= j <= s.len(),
        0 <= i <= k <= s.len(),
        spec_encode(a) == s.subrange(i, j),
        spec_encode(b) == s.subrange(i, k),
    ensures
        a == b,
        j == k,
{
    if j <= k {
        assert(spec_encode(a) + s.subrange(j, k) =~= s.subrange(i, k));
        assert(spec_encode(b) + Seq::<ScenarioNodeSerde>::empty() =~= s.subrange(i, k));
        lemma_encode_prefix_free(a, b, s.subrange(j, k), Seq::empty());
        assert(s.subrange(j, k).len() == 0);
    } else {
        assert(spec_encode(b) + s.subrange(k, j) =~= s.subrange(i, j));
        assert(spec_encode(a) + Seq::<ScenarioNodeSerde>::empty() =~= s.subrange(i, j));
        lemma_encode_prefix_free(b, a, s.subrange(k, j), Seq::empty());
        assert(s.subrange(k, j).len() == 0);
    }
}

/// Encoding is one to one on trees.
pub proof fn lemma_encode_injective(a: ScenarioNode, b: ScenarioNode)
    requires
        spec_encode(a) == spec_encode(b),
    ensures
        a == b,
{
    assert(spec_encode(a) + Seq::<ScenarioNodeSerde>::empty() =~= spec_encode(a));
    assert(spec_encode(b) + Seq::<ScenarioNodeSerde>::empty() =~= spec_encode(b));
    lemma_encode_prefix_free(a, b, Seq::empty(), Seq::empty());
}

/// What a record sequence decodes to: the unique role-consistent tree
/// that encodes to exactly this sequence, if there is one.
pub open spec fn spec_decode(s: Seq<ScenarioNodeSerde>) -> Option<ScenarioNode> {
    if exists|t: ScenarioNode|
        node_roles_ok(t, BranchType::Child) && spec_encode(t) == s {
        Some(
            choose|t: ScenarioNode|
                node_roles_ok(t, BranchType::Child) && spec_encode(t) == s,
        )
    } else {
        None
    }
}

/// Does the encoding of `t` sit at position `i` of `s`?
pub open spec fn enc_prefix_at(t: ScenarioNode, s: Seq<ScenarioNodeSerde>, i: int) -> bool {
    0 <= i && i + spec_encode(t).len() <= s.len() && s.subrange(i, i + spec_encode(t).len())
        == spec_encode(t)
}

impl ScenarioNodeSerde {
    /// The record one node flattens to, its shape flag taken from the
    /// links the node has now.
    pub fn from_node(sn: &ScenarioNode) -> (r: ScenarioNodeSerde)
        ensures
            r == rec_of(*sn),
    {
        let has = match (&sn.child, &sn.neighbor) {
            (Some(_), Some(_)) => HasBranches::Both,
            (Some(_), None) => HasBranches::Child,
            (None, Some(_)) => HasBranches::Neighbor,
            (None, None) => HasBranches::Leaf,
        };
        ScenarioNodeSerde { value: sn.value.duplicate(), bt: sn.bt, id: sn.id, has_n_and_c: has }
    }

    /// Flatten the tree rooted at `root` into its preorder record
    /// sequence.
    pub fn from_sn(root: &ScenarioNode) -> (r: Vec<ScenarioNodeSerde>)
        ensures
            r@ == spec_encode(*root),
    {
        let mut out: Vec<ScenarioNodeSerde> = Vec::new();
        encode_into(root, &mut out);
        out
    }
}

fn encode_into(t: &ScenarioNode, out: &mut Vec<ScenarioNodeSerde>)
    ensures
        final(out)@ == old(out)@ + spec_encode(*t),
    decreases *t,
{
    out.push(ScenarioNodeSerde::from_node(t));
    if let Some(c) = &t.child {
        encode_into(&**c, out);
    }
    if let Some(n) = &t.neighbor {
        encode_into(&**n, out);
    }
    proof {
        assert(out@ =~= old(out)@ + spec_encode(*t));
    }
}

/// Rebuild one subtree from the records, starting at `i` and expecting a
/// node in the given branch role.  Returns the subtree and the index of
/// the first record it did not consume; `None` when no role-consistent
/// tree's encoding sits at `i`.
fn decode_at(recs: &Vec<ScenarioNodeSerde>, i: usize, expect: BranchType) -> (r: Option<
    (Box<ScenarioNode>, usize),
>)
    ensures
        match r {
            Some((n, j)) => i < j <= recs@.len() && node_roles_ok(*n, expect) && spec_encode(*n)
                == recs@.subrange(i as int, j as int),
            None => forall|t: ScenarioNode|
                node_roles_ok(t, expect) ==> !enc_prefix_at(t, recs@, i as int),
        },
    decreases recs@.len() - i,
{
    let ghost s = recs@;
    if i >= recs.len() {
        proof {
            assert forall|t: ScenarioNode|
                node_roles_ok(t, expect) implies !enc_prefix_at(t, s, i as int) by {
                assert(spec_encode(t).len() >= 1);
            }
        }
        return None;
    }
    let rec = &recs[i];
    if !branch_type_eq(rec.bt, expect) {
        proof {
            assert forall|t: ScenarioNode|
                node_roles_ok(t, expect) implies !enc_prefix_at(t, s, i as int) by {
                if enc_prefix_at(t, s, i as int) {
                    assert(s.subrange(i as int, i + spec_encode(t).len())[0] == rec_of(t));
                    assert(s[i as int] == rec_of(t));
                }
            }
        }
        return None;
    }
    match rec.has_n_and_c {
        HasBranches::Leaf => {
            let n = Box::new(
                ScenarioNode {
                    value: rec.value.duplicate(),
                    bt: rec.bt,
                    id: rec.id,
                    child: None,
                    neighbor: None,
                },
            );
            proof {
                assert(rec_of(*n) == s[i as int]);
                assert(spec_encode(*n) =~= s.subrange(i as int, i + 1));
            }
            Some((n, i + 1))
        },
        HasBranches::Child => {
            match decode_at(recs, i + 1, BranchType::Child) {
                None => {
                    proof {
                        assert forall|t: ScenarioNode|
                            node_roles_ok(t, expect) implies !enc_prefix_at(t, s, i as int) by {
                            if enc_prefix_at(t, s, i as int) {
                                lemma_reject_by_child(t, s, i as int, HasBranches::Child);
                            }
                        }
                    }
                    None
                },
                Some((c, j)) => {
                    let n = Box::new(
                        ScenarioNode {
                            value: rec.value.duplicate(),
                            bt: rec.bt,
                            id: rec.id,
                            child: Some(c),
                            neighbor: None,
                        },
                    );
                    proof {
                        assert(rec_of(*n) == s[i as int]);
                        assert(spec_encode(*n) =~= s.subrange(i as int, j as int));
                    }
                    Some((n, j))
                },
            }
        },
        HasBranches::Neighbor => {
            match decode_at(recs, i + 1, BranchType::Neighbor) {
                None => {
                    proof {
                        assert forall|t: ScenarioNode|
                            node_roles_ok(t, expect) implies !enc_prefix_at(t, s, i as int) by {
                            if enc_prefix_at(t, s, i as int) {
                                lemma_reject_by_neighbor(t, s, i as int, i + 1);
                            }
                        }
                    }
                    None
                },
                Some((nb, j)) => {
                    let n = Box::new(
                        ScenarioNode {
                            value: rec.value.duplicate(),
                            bt: rec.bt,
                            id: rec.id,
                            child: None,
                            neighbor: Some(nb),
                        },
                    );
                    proof {
                        assert(rec_of(*n) == s[i as int]);
                        assert(spec_encode(*n) =~= s.subrange(i as int, j as int));
                    }
                    Some((n, j))
                },
            }
        },
        HasBranches::Both => {
            match decode_at(recs, i + 1, BranchType::Child) {
                None => {
                    proof {
                        assert forall|t: ScenarioNode|
                            node_roles_ok(t, expect) implies !enc_prefix_at(t, s, i as int) by {
                            if enc_prefix_at(t, s, i as int) {
                                lemma_reject_by_child(t, s, i as int, HasBranches::Both);
                            }
                        }
                    }
                    None
                },
                Some((c, j)) => {
                    match decode_at(recs, j, BranchType::Neighbor) {
                        None => {
                            proof {
                                assert forall|t: ScenarioNode|
                                    node_roles_ok(t, expect) implies !enc_prefix_at(
                                    t,
                                    s,
                                    i as int,
                                ) by {
                                    if enc_prefix_at(t, s, i as int) {
                                        lemma_both_child_align(t, *c, s, i as int, j as int);
                                    }
                                }
                            }
                            None
                        },
                        Some((nb, k)) => {
                            let n = Box::new(
                                ScenarioNode {
                                    value: rec.value.duplicate(),
                                    bt: rec.bt,
                                    id: rec.id,
                                    child: Some(c),
                                    neighbor: Some(nb),
                                },
                            );
                            proof {
                                assert(rec_of(*n) == s[i as int]);
                                assert(spec_encode(*n) =~= s.subrange(i as int, k as int));
                            }
                            Some((n, k))
                        },
                    }
                },
            }
        },
    }
}

fn branch_type_eq(a: BranchType, b: BranchType) -> (r: bool)
    ensures
        r == (a == b),
{
    match (a, b) {
        (BranchType::Child, BranchType::Child) => true,
        (BranchType::Neighbor, BranchType::Neighbor) => true,
        _ => false,
    }
}

/// A tree whose record at `i` announces a child subtree puts that
/// subtree's encoding right after the record.
proof fn lemma_reject_by_child(
    t: ScenarioNode,
    s: Seq<ScenarioNodeSerde>,
    i: int,
    shape: HasBranches,
)
    requires
        enc_prefix_at(t, s, i),
        s[i].has_n_and_c == shape,
        shape == HasBranches::Child || shape == HasBranches::Both,
    ensures
        t.child matches Some(tc) && node_roles_ok(*tc, BranchType::Child) && enc_prefix_at(
            *tc,
            s,
            i + 1,
        ) || !node_roles_ok(t, t.bt),
{
    assert(s.subrange(i, i + spec_encode(t).len())[0] == rec_of(t));
    assert(s[i] == rec_of(t));
    match t.child {
        Some(tc) => {
            if node_roles_ok(t, t.bt) {
                let ec = spec_encode(*tc);
                assert(ec =~= s.subrange(i + 1, i + 1 + ec.len())) by {
                    let et = spec_encode(t);
                    assert(forall|m: int|
                        0 <= m < ec.len() ==> ec[m] == et[m + 1] && et[m + 1] == s.subrange(
                            i,
                            i + et.len(),
                        )[m + 1]);
                }
                assert(enc_prefix_at(*tc, s, i + 1));
            }
        },
        None => {
            assert(shape_of(t) == HasBranches::Leaf || shape_of(t) == HasBranches::Neighbor);
        },
    }
}

/// A tree whose record at `i` announces only a neighbor subtree puts
/// that subtree's encoding right after the record.
proof fn lemma_reject_by_neighbor(t: ScenarioNode, s: Seq<ScenarioNodeSerde>, i: int, j: int)
    requires
        enc_prefix_at(t, s, i),
        s[i].has_n_and_c == HasBranches::Neighbor,
        j == i + 1,
    ensures
        t.neighbor matches Some(tn) && node_roles_ok(*tn, BranchType::Neighbor) && enc_prefix_at(
            *tn,
            s,
            j,
        ) || !node_roles_ok(t, t.bt),
{
    assert(s.subrange(i, i + spec_encode(t).len())[0] == rec_of(t));
    assert(s[i] == rec_of(t));
    match t.neighbor {
        Some(tn) => {
            if node_roles_ok(t, t.bt) {
                assert(t.child is None);
                let en = spec_encode(*tn);
                assert(en =~= s.subrange(i + 1, i + 1 + en.len())) by {
                    let et = spec_encode(t);
                    assert(forall|m: int|
                        0 <= m < en.len() ==> en[m] == et[m + 1] && et[m + 1] == s.subrange(
                            i,
                            i + et.len(),
                        )[m + 1]);
                }
                assert(enc_prefix_at(*tn, s, i + 1));
            }
        },
        None => {
            assert(shape_of(t) == HasBranches::Leaf || shape_of(t) == HasBranches::Child);
        },
    }
}

/// In a `Both`-shaped prefix whose child subtree has been decoded as
/// `c` ending at `j`, the original tree's child equals `c` and its
/// neighbor subtree's encoding starts at `j`.
proof fn lemma_both_child_align(
    t: ScenarioNode,
    c: ScenarioNode,
    s: Seq<ScenarioNodeSerde>,
    i: int,
    j: int,
)
    requires
        enc_prefix_at(t, s, i),
        node_roles_ok(t, t.bt),
        s[i].has_n_and_c == HasBranches::Both,
        i < j <= s.len(),
        spec_encode(c) == s.subrange(i + 1, j),
    ensures
        t.child matches Some(tc) && *tc == c,
        t.neighbor matches Some(tn) && node_roles_ok(*tn, BranchType::Neighbor) && enc_prefix_at(
            *tn,
            s,
            j,
        ),
{
    assert(s.subrange(i, i + spec_encode(t).len())[0] == rec_of(t));
    assert(s[i] == rec_of(t));
    let tc = t.child.unwrap();
    let tn = t.neighbor.unwrap();
    let ec = spec_encode(*tc);
    let en = spec_encode(*tn);
    let et = spec_encode(t);
    assert(ec =~= s.subrange(i + 1, i + 1 + ec.len())) by {
        assert(forall|m: int|
            0 <= m < ec.len() ==> ec[m] == et[m + 1] && et[m + 1] == s.subrange(
                i,
                i + et.len(),
            )[m + 1]);
    }
    lemma_encode_align(c, *tc, s, i + 1, j, i + 1 + ec.len());
    assert(en =~= s.subrange(j, j + en.len())) by {
        assert(j == i + 1 + ec.len());
        assert(forall|m: int|
            0 <= m < en.len() ==> en[m] == et[1 + ec.len() + m] && et[1 + ec.len() + m]
                == s.subrange(i, i + et.len())[1 + ec.len() + m]);
    }
    assert(enc_prefix_at(*tn, s, j));
}

/// Round-trip law: a tree with consistent branch roles decodes from its
/// own encoding back to an equal tree — same preorder sequence of items,
/// roles and ids, and equal links throughout.
pub proof fn lemma_round_trip(t: ScenarioNode)
    requires
        node_roles_ok(t, BranchType::Child),
    ensures
        spec_decode(spec_encode(t)) == Some(t),
{
    let s = spec_encode(t);
    assert(node_roles_ok(t, BranchType::Child) && spec_encode(t) == s);
    assert(spec_decode(s) is Some);
    let t2 = choose|t2: ScenarioNode|
        node_roles_ok(t2, BranchType::Child) && spec_encode(t2) == s;
    lemma_encode_injective(t2, t);
}

impl ScenarioNode {
    /// Rebuild a tree from its preorder record sequence.  Returns the
    /// unique role-consistent tree that encodes to exactly `ser`, or
    /// `None` — never a partial tree — when the records are not such an
    /// encoding (truncated input, spare trailing records, or shape flags
    /// inconsistent with the branch roles).
    pub fn from_serde(ser: Vec<ScenarioNodeSerde>) -> (r: Option<Box<ScenarioNode>>)
        ensures
            match r {
                Some(n) => spec_decode(ser@) == Some(*n),
                None => spec_decode(ser@) is None,
            },
    {
        let ghost s = ser@;
        match decode_at(&ser, 0, BranchType::Child) {
            None => {
                proof {
                    if spec_decode(s) is Some {
                        let t = choose|t: ScenarioNode|
                            node_roles_ok(t, BranchType::Child) && spec_encode(t) == s;
                        assert(s.subrange(0, s.len() as int) =~= s);
                        assert(enc_prefix_at(t, s, 0));
                    }
                }
                None
            },
            Some((n, j)) => {
                if j == ser.len() {
                    proof {
                        assert(s.subrange(0, s.len() as int) =~= s);
                        assert(spec_encode(*n) == s);
                        assert(spec_decode(s) is Some);
                        let t = choose|t: ScenarioNode|
                            node_roles_ok(t, BranchType::Child) && spec_encode(t) == s;
                        lemma_encode_injective(t, *n);
                    }
                    Some(n)
                } else {
                    proof {
                        if spec_decode(s) is Some {
                            let t = choose|t: ScenarioNode|
                                node_roles_ok(t, BranchType::Child) && spec_encode(t) == s;
                            assert(s.subrange(0, s.len() as int) =~= s);
                            lemma_encode_align(*n, t, s, 0, j as int, s.len() as int);
                        }
                    }
                    None
                }
            },
        }
    }
}

} // verus!
