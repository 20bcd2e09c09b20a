use vstd::prelude::*;
use vstd::utf8::encode_utf8;
use crate::model::{workflows_view, WorkflowDefinition, WorkflowView};

verus! {

broadcast use vstd::seq_lib::group_to_multiset_ensures;

/// Lexicographic order on byte strings; a proper prefix comes first.
pub open spec fn bytes_lt(a: Seq<u8>, b: Seq<u8>) -> bool
    decreases a.len(),
{
    if b.len() == 0 {
        false
    } else if a.len() == 0 {
        true
    } else if a[0] != b[0] {
        a[0] < b[0]
    } else {
        bytes_lt(a.drop_first(), b.drop_first())
    }
}

/// Workflows are ordered by the UTF-8 bytes of their source identifiers,
/// which orders them as their characters do.
pub open spec fn source_key(w: WorkflowView) -> Seq<u8> {
    encode_utf8(w.source_identifier)
}

pub proof fn lemma_bytes_lt_asymmetric(a: Seq<u8>, b: Seq<u8>)
    ensures
        bytes_lt(a, b) ==> !bytes_lt(b, a),
    decreases a.len(),
{
    if a.len() > 0 && b.len() > 0 && a[0] == b[0] {
        lemma_bytes_lt_asymmetric(a.drop_first(), b.drop_first());
    }
}

pub proof fn lemma_bytes_lt_transitive(a: Seq<u8>, b: Seq<u8>, c: Seq<u8>)
    ensures
        bytes_lt(a, b) && bytes_lt(b, c) ==> bytes_lt(a, c),
    decreases a.len(),
{
    if a.len() > 0 && b.len() > 0 && c.len() > 0 && a[0] == b[0] && b[0] == c[0] {
        lemma_bytes_lt_transitive(a.drop_first(), b.drop_first(), c.drop_first());
    }
}

/// Where `x` goes in `t`: before the first workflow whose key is greater.
pub open spec fn insert_pos(t: Seq<WorkflowView>, x: WorkflowView) -> int
    decreases t.len(),
{
    if t.len() == 0 {
        0
    } else if bytes_lt(source_key(x), source_key(t[0])) {
        0
    } else {
        1 + insert_pos(t.drop_first(), x)
    }
}

/// Insertion sort by source key; workflows with equal keys keep their order.
pub open spec fn sort_by_source(s: Seq<WorkflowView>) -> Seq<WorkflowView>
    decreases s.len(),
{
    if s.len() == 0 {
        Seq::empty()
    } else {
        let t = sort_by_source(s.drop_last());
        t.insert(insert_pos(t, s.last()), s.last())
    }
}

pub open spec fn sorted_by_source(s: Seq<WorkflowView>) -> bool {
    forall|i: int, j: int|
        0 <= i < j < s.len() ==> !bytes_lt(source_key(#[trigger] s[j]), source_key(#[trigger] s[i]))
}

proof fn lemma_insert_pos(t: Seq<WorkflowView>, x: WorkflowView)
    ensures
        0 <= insert_pos(t, x) <= t.len(),
        forall|k: int|
            0 <= k < insert_pos(t, x) ==> !bytes_lt(source_key(x), source_key(#[trigger] t[k])),
        insert_pos(t, x) < t.len() ==> bytes_lt(source_key(x), source_key(t[insert_pos(t, x)])),
    decreases t.len(),
{
    if t.len() > 0 && !bytes_lt(source_key(x), source_key(t[0])) {
        lemma_insert_pos(t.drop_first(), x);
        assert forall|k: int| 0 <= k < insert_pos(t, x) implies !bytes_lt(
            source_key(x),
            source_key(#[trigger] t[k]),
        ) by {
            if k > 0 {
                assert(t[k] == t.drop_first()[k - 1]);
            }
        }
    }
}

proof fn lemma_insert_sorted(t: Seq<WorkflowView>, x: WorkflowView)
    requires
        sorted_by_source(t),
    ensures
        sorted_by_source(t.insert(insert_pos(t, x), x)),
{
    lemma_insert_pos(t, x);
    let p = insert_pos(t, x);
    let u = t.insert(p, x);
    assert forall|i: int, j: int| 0 <= i < j < u.len() implies !bytes_lt(
        source_key(#[trigger] u[j]),
        source_key(#[trigger] u[i]),
    ) by {
        if j < p {
            assert(u[i] == t[i] && u[j] == t[j]);
        } else if j == p {
            assert(u[i] == t[i]);
        } else if i == p {
            assert(u[j] == t[j - 1]);
            lemma_bytes_lt_asymmetric(source_key(x), source_key(t[p]));
            if j - 1 > p {
                assert(!bytes_lt(source_key(t[j - 1]), source_key(t[p])));
                lemma_bytes_lt_transitive(source_key(t[j - 1]), source_key(x), source_key(t[p]));
            }
        } else if i < p {
            assert(u[i] == t[i] && u[j] == t[j - 1]);
        } else {
            assert(u[i] == t[i - 1] && u[j] == t[j - 1]);
        }
    }
}

/// Sorting orders the workflows by source identifier and neither adds nor
/// loses any.
pub proof fn lemma_sort_by_source(s: Seq<WorkflowView>)
    ensures
        sorted_by_source(sort_by_source(s)),
        sort_by_source(s).to_multiset() == s.to_multiset(),
    decreases s.len(),
{
    if s.len() > 0 {
        let t = sort_by_source(s.drop_last());
        lemma_sort_by_source(s.drop_last());
        lemma_insert_pos(t, s.last());
        lemma_insert_sorted(t, s.last());
        vstd::seq_lib::to_multiset_insert(t, insert_pos(t, s.last()), s.last());
        vstd::seq_lib::to_multiset_build(s.drop_last(), s.last());
        assert(s.drop_last().push(s.last()) =~= s);
    }
}

fn source_less(a: &WorkflowDefinition, b: &WorkflowDefinition) -> (r: bool)
    ensures
        r == bytes_lt(source_key(a@), source_key(b@)),
{
    let x = a.source_identifier.as_str().as_bytes();
    let y = b.source_identifier.as_str().as_bytes();
    let mut i: usize = 0;
    assert(x@.subrange(0, x@.len() as int) =~= x@);
    assert(y@.subrange(0, y@.len() as int) =~= y@);
    while i < x.len() && i < y.len()
        invariant
            0 <= i <= x.len(),
            i <= y.len(),
            x@ == source_key(a@),
            y@ == source_key(b@),
            bytes_lt(x@, y@) == bytes_lt(
                x@.subrange(i as int, x@.len() as int),
                y@.subrange(i as int, y@.len() as int),
            ),
        decreases x.len() - i,
    {
        let ghost xs = x@.subrange(i as int, x@.len() as int);
        let ghost ys = y@.subrange(i as int, y@.len() as int);
        assert(xs[0] == x@[i as int] && ys[0] == y@[i as int]);
        if x[i] != y[i] {
            return x[i] < y[i];
        }
        assert(xs.drop_first() =~= x@.subrange(i as int + 1, x@.len() as int));
        assert(ys.drop_first() =~= y@.subrange(i as int + 1, y@.len() as int));
        i = i + 1;
    }
    i < y.len()
}

/// Puts the workflows in the order of their source identifiers.
pub fn order_by_source(workflows: Vec<WorkflowDefinition>) -> (r: Vec<WorkflowDefinition>)
    ensures
        workflows_view(r@) == sort_by_source(workflows_view(workflows@)),
{
    let ghost all = workflows_view(workflows@);
    let mut rest = workflows;
    let mut out: Vec<WorkflowDefinition> = Vec::new();
    let ghost mut i: int = 0;
    assert(all.take(0) =~= Seq::<WorkflowView>::empty());
    assert(workflows_view(out@) =~= Seq::<WorkflowView>::empty());
    assert(all.subrange(0, all.len() as int) =~= all);
    while rest.len() > 0
        invariant
            0 <= i <= all.len(),
            workflows_view(rest@) == all.subrange(i, all.len() as int),
            workflows_view(out@) == sort_by_source(all.take(i)),
        decreases rest.len(),
    {
        let ghost rv = workflows_view(rest@);
        let w = rest.remove(0);
        assert(rv[0] == w@);
        assert(workflows_view(rest@) =~= rv.subrange(1, rv.len() as int));
        assert(rv.subrange(1, rv.len() as int) =~= all.subrange(i + 1, all.len() as int));
        let ghost sv = workflows_view(out@);
        let mut p: usize = 0;
        assert(sv.subrange(0, sv.len() as int) =~= sv);
        while p < out.len() && !source_less(&w, &out[p])
            invariant
                0 <= p <= out.len(),
                sv == workflows_view(out@),
                insert_pos(sv, w@) == p + insert_pos(sv.subrange(p as int, sv.len() as int), w@),
            decreases out.len() - p,
        {
            let ghost tail = sv.subrange(p as int, sv.len() as int);
            assert(tail[0] == sv[p as int]);
            assert(tail.drop_first() =~= sv.subrange(p as int + 1, sv.len() as int));
            p = p + 1;
        }
        proof {
            let tail = sv.subrange(p as int, sv.len() as int);
            if p < out.len() {
                assert(tail[0] == sv[p as int]);
            }
            assert(all.take(i + 1).drop_last() =~= all.take(i));
            assert(all.take(i + 1).last() == w@);
        }
        out.insert(p, w);
        assert(workflows_view(out@) =~= sv.insert(p as int, w@));
        proof {
            i = i + 1;
        }
    }
    assert(all.take(i) =~= all);
    out
}

} // verus!
