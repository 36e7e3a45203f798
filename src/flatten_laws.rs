use vstd::prelude::*;

use crate::sendprop::{
    class_flatten, classes_flatten, expand, exclusion_views, flatten_spec, has_key, ids_distinct,
    is_excluded, select_props, table_position, with_priority, FlatPropView, PropSchema, ServerClass,
};

verus! {

/// How many properties of `s` satisfy `f`.
pub open spec fn count_where(s: Seq<FlatPropView>, f: spec_fn(FlatPropView) -> bool) -> nat
    decreases s.len(),
{
    if s.len() == 0 {
        0
    } else {
        count_where(s.drop_last(), f) + if f(s.last()) {
            1nat
        } else {
            0nat
        }
    }
}

/// How many properties of `s` are property `name` of table `table`.
pub open spec fn count_key(s: Seq<FlatPropView>, table: Seq<char>, name: Seq<char>) -> nat {
    count_where(s, |x: FlatPropView| x.table == table && x.name == name)
}

/// The unique pairs that selection keeps from the expansion of `schema`.
pub open spec fn selected(tables: Seq<PropSchema>, schema: PropSchema) -> Seq<FlatPropView> {
    let e = expand(tables, schema.name@, schema.props@, tables.len())->Ok_0;
    select_props(e.props, exclusion_views(schema.excludes@) + e.excludes)->Ok_0
}

proof fn lemma_count_concat(a: Seq<FlatPropView>, b: Seq<FlatPropView>, f: spec_fn(FlatPropView) -> bool)
    ensures
        count_where(a + b, f) == count_where(a, f) + count_where(b, f),
    decreases b.len(),
{
    if b.len() == 0 {
        assert(a + b =~= a);
    } else {
        assert((a + b).drop_last() =~= a + b.drop_last());
        lemma_count_concat(a, b.drop_last(), f);
    }
}

proof fn lemma_count_partition(u: Seq<FlatPropView>, f: spec_fn(FlatPropView) -> bool)
    ensures
        count_where(with_priority(u, true), f) + count_where(with_priority(u, false), f)
            == count_where(u, f),
    decreases u.len(),
{
    if u.len() > 0 {
        lemma_count_partition(u.drop_last(), f);
        let t = with_priority(u.drop_last(), true);
        let n = with_priority(u.drop_last(), false);
        assert(t.push(u.last()).drop_last() =~= t);
        assert(n.push(u.last()).drop_last() =~= n);
    }
}

proof fn lemma_count_none(s: Seq<FlatPropView>, f: spec_fn(FlatPropView) -> bool)
    requires
        forall|i: int| 0 <= i < s.len() ==> !f(#[trigger] s[i]),
    ensures
        count_where(s, f) == 0,
    decreases s.len(),
{
    if s.len() > 0 {
        lemma_count_none(s.drop_last(), f);
    }
}

proof fn lemma_count_at_most_one(s: Seq<FlatPropView>, f: spec_fn(FlatPropView) -> bool)
    requires
        forall|i: int, j: int| 0 <= i < j < s.len() ==> !(f(#[trigger] s[i]) && f(#[trigger] s[j])),
    ensures
        count_where(s, f) <= 1,
    decreases s.len(),
{
    if s.len() > 0 {
        let s2 = s.drop_last();
        if f(s.last()) {
            assert forall|i: int| 0 <= i < s2.len() implies !f(#[trigger] s2[i]) by {
                assert(s[i] == s2[i]);
                assert(!(f(s[i]) && f(s[s.len() - 1])));
            }
            lemma_count_none(s2, f);
        } else {
            lemma_count_at_most_one(s2, f);
        }
    }
}

proof fn lemma_count_one(s: Seq<FlatPropView>, f: spec_fn(FlatPropView) -> bool, i: int)
    requires
        0 <= i < s.len(),
        f(s[i]),
    ensures
        count_where(s, f) >= 1,
    decreases s.len(),
{
    if i < s.len() - 1 {
        lemma_count_one(s.drop_last(), f, i);
    }
}

proof fn lemma_count_two(s: Seq<FlatPropView>, f: spec_fn(FlatPropView) -> bool, i: int, j: int)
    requires
        0 <= i < j < s.len(),
        f(s[i]),
        f(s[j]),
    ensures
        count_where(s, f) >= 2,
    decreases s.len(),
{
    if j < s.len() - 1 {
        lemma_count_two(s.drop_last(), f, i, j);
    } else {
        lemma_count_one(s.drop_last(), f, i);
    }
}

/// What selection guarantees: every kept property is not excluded, the pairs
/// kept are distinct and so are their identifiers, and every expanded pair
/// that is not excluded is kept.
proof fn lemma_select(s: Seq<FlatPropView>, excludes: Seq<(Seq<char>, Seq<char>)>)
    requires
        select_props(s, excludes) is Ok,
    ensures
        ({
            let u = select_props(s, excludes)->Ok_0;
            &&& forall|i: int| 0 <= i < u.len() ==> !is_excluded(excludes, #[trigger] u[i])
            &&& forall|a: int, b: int|
                0 <= a < b < u.len() ==> !(#[trigger] u[a].table == #[trigger] u[b].table
                    && u[a].name == u[b].name)
            &&& ids_distinct(u)
            &&& forall|j: int|
                0 <= j < s.len() && !is_excluded(excludes, #[trigger] s[j]) ==> has_key(
                    u,
                    s[j].table,
                    s[j].name,
                )
        }),
    decreases s.len(),
{
    if s.len() > 0 {
        let s2 = s.drop_last();
        lemma_select(s2, excludes);
        let front = select_props(s2, excludes)->Ok_0;
        let u = select_props(s, excludes)->Ok_0;
        let p = s.last();
        assert forall|j: int|
            0 <= j < s.len() && !is_excluded(excludes, #[trigger] s[j]) implies has_key(
            u,
            s[j].table,
            s[j].name,
        ) by {
            if j < s.len() - 1 {
                assert(s[j] == s2[j]);
                let k = choose|k: int|
                    0 <= k < front.len() && #[trigger] front[k].table == s2[j].table
                        && front[k].name == s2[j].name;
                assert(u[k] == front[k]);
            } else if !has_key(front, p.table, p.name) {
                assert(u[front.len() as int] == p);
            } else {
                let k = choose|k: int|
                    0 <= k < front.len() && #[trigger] front[k].table == p.table && front[k].name
                        == p.name;
                assert(u[k] == front[k]);
            }
        }
        if u != front {
            assert forall|a: int, b: int|
                0 <= a < b < u.len() implies !(#[trigger] u[a].table == #[trigger] u[b].table
                && u[a].name == u[b].name) by {
                assert(u[a] == front[a]);
                if b < front.len() {
                    assert(u[b] == front[b]);
                }
            }
            assert forall|a: int, b: int|
                0 <= a < b < u.len() implies u[a].identifier != u[b].identifier by {
                assert(u[a] == front[a]);
                if b < front.len() {
                    assert(u[b] == front[b]);
                }
            }
            assert forall|i: int| 0 <= i < u.len() implies !is_excluded(excludes, #[trigger] u[i]) by {
                if i < front.len() {
                    assert(u[i] == front[i]);
                }
            }
        }
    }
}

proof fn lemma_priority_members(u: Seq<FlatPropView>, flag: bool)
    ensures
        forall|i: int|
            0 <= i < with_priority(u, flag).len() ==> (#[trigger] with_priority(u, flag)[i]).changes_often
                == flag,
        with_priority(with_priority(u, flag), flag) == with_priority(u, flag),
        with_priority(with_priority(u, flag), !flag) == Seq::<FlatPropView>::empty(),
    decreases u.len(),
{
    if u.len() > 0 {
        lemma_priority_members(u.drop_last(), flag);
        let w = with_priority(u.drop_last(), flag);
        if u.last().changes_often == flag {
            assert(w.push(u.last()).drop_last() =~= w);
        }
    } else {
        assert(with_priority(u, flag) =~= Seq::<FlatPropView>::empty());
    }
}

proof fn lemma_priority_concat(a: Seq<FlatPropView>, b: Seq<FlatPropView>, flag: bool)
    ensures
        with_priority(a + b, flag) == with_priority(a, flag) + with_priority(b, flag),
    decreases b.len(),
{
    if b.len() == 0 {
        assert(a + b =~= a);
        assert(with_priority(a, flag) + with_priority(b, flag) =~= with_priority(a, flag));
    } else {
        assert((a + b).drop_last() =~= a + b.drop_last());
        lemma_priority_concat(a, b.drop_last(), flag);
        if b.last().changes_often == flag {
            assert(with_priority(a, flag) + with_priority(b.drop_last(), flag).push(b.last())
                =~= (with_priority(a, flag) + with_priority(b.drop_last(), flag)).push(b.last()));
        }
    }
}

/// Flattening depends on its inputs alone: two flattenings of one table
/// against the same tables give the same identifiers in the same order.
pub proof fn lemma_flatten_deterministic(
    tables: Seq<PropSchema>,
    schema: PropSchema,
    first: Seq<FlatPropView>,
    second: Seq<FlatPropView>,
)
    requires
        flatten_spec(tables, schema) == Ok::<Seq<FlatPropView>, crate::sendprop::FlattenError>(first),
        flatten_spec(tables, schema) == Ok::<Seq<FlatPropView>, crate::sendprop::FlattenError>(second),
    ensures
        first == second,
{
}

/// Every property reached by expansion and not excluded appears exactly once
/// in the flattened list; no excluded pair appears in it.
pub proof fn lemma_flatten_complete(tables: Seq<PropSchema>, schema: PropSchema)
    requires
        flatten_spec(tables, schema) is Ok,
    ensures
        ({
            let r = flatten_spec(tables, schema)->Ok_0;
            let e = expand(tables, schema.name@, schema.props@, tables.len())->Ok_0;
            let ex = exclusion_views(schema.excludes@) + e.excludes;
            &&& forall|j: int|
                0 <= j < e.props.len() && !is_excluded(ex, #[trigger] e.props[j]) ==> count_key(
                    r,
                    e.props[j].table,
                    e.props[j].name,
                ) == 1
            &&& forall|j: int| 0 <= j < ex.len() ==> count_key(r, (#[trigger] ex[j]).0, ex[j].1) == 0
        }),
{
    let r = flatten_spec(tables, schema)->Ok_0;
    let e = expand(tables, schema.name@, schema.props@, tables.len())->Ok_0;
    let ex = exclusion_views(schema.excludes@) + e.excludes;
    let u = select_props(e.props, ex)->Ok_0;
    lemma_select(e.props, ex);
    assert forall|j: int|
        0 <= j < e.props.len() && !is_excluded(ex, #[trigger] e.props[j]) implies count_key(
        r,
        e.props[j].table,
        e.props[j].name,
    ) == 1 by {
        let f = |x: FlatPropView| x.table == e.props[j].table && x.name == e.props[j].name;
        lemma_count_concat(with_priority(u, true), with_priority(u, false), f);
        lemma_count_partition(u, f);
        let k = choose|k: int|
            0 <= k < u.len() && #[trigger] u[k].table == e.props[j].table && u[k].name
                == e.props[j].name;
        lemma_count_one(u, f, k);
        assert forall|a: int, b: int| 0 <= a < b < u.len() implies !(f(#[trigger] u[a]) && f(
            #[trigger] u[b],
        )) by {
            assert(!(u[a].table == u[b].table && u[a].name == u[b].name));
        }
        lemma_count_at_most_one(u, f);
    }
    assert forall|j: int| 0 <= j < ex.len() implies count_key(r, (#[trigger] ex[j]).0, ex[j].1)
        == 0 by {
        let f = |x: FlatPropView| x.table == ex[j].0 && x.name == ex[j].1;
        lemma_count_concat(with_priority(u, true), with_priority(u, false), f);
        lemma_count_partition(u, f);
        assert forall|i: int| 0 <= i < u.len() implies !f(#[trigger] u[i]) by {
            if f(u[i]) {
                assert(ex[j] == (u[i].table, u[i].name));
                assert(is_excluded(ex, u[i]));
            }
        }
        lemma_count_none(u, f);
    }
}

/// In the flattened list every changes-often property comes before every
/// other one, and within each of the two groups the order of expansion is
/// kept.
pub proof fn lemma_flatten_priority_first(tables: Seq<PropSchema>, schema: PropSchema)
    requires
        flatten_spec(tables, schema) is Ok,
    ensures
        ({
            let r = flatten_spec(tables, schema)->Ok_0;
            let u = selected(tables, schema);
            &&& forall|i: int, j: int|
                0 <= i < j < r.len() && (#[trigger] r[j]).changes_often ==> (#[trigger] r[i]).changes_often
            &&& with_priority(r, true) == with_priority(u, true)
            &&& with_priority(r, false) == with_priority(u, false)
        }),
{
    let r = flatten_spec(tables, schema)->Ok_0;
    let u = selected(tables, schema);
    let t = with_priority(u, true);
    let n = with_priority(u, false);
    lemma_priority_members(u, true);
    lemma_priority_members(u, false);
    lemma_priority_concat(t, n, true);
    lemma_priority_concat(t, n, false);
    assert(t + Seq::<FlatPropView>::empty() =~= t);
    assert(Seq::<FlatPropView>::empty() + n =~= n);
    assert forall|i: int, j: int|
        0 <= i < j < r.len() && (#[trigger] r[j]).changes_often implies (#[trigger] r[i]).changes_often by {
        if j >= t.len() {
            assert(r[j] == n[j - t.len()]);
        }
        assert(r[i] == t[i]);
    }
}

/// No two different `(table, property)` pairs of one flattened list share
/// an identifier; indeed no two of its properties do.
pub proof fn lemma_flatten_identifiers_unique(tables: Seq<PropSchema>, schema: PropSchema)
    requires
        flatten_spec(tables, schema) is Ok,
    ensures
        ({
            let r = flatten_spec(tables, schema)->Ok_0;
            forall|i: int, j: int|
                0 <= i < r.len() && 0 <= j < r.len() && i != j ==> (#[trigger] r[i]).identifier
                    != (#[trigger] r[j]).identifier
        }),
{
    let r = flatten_spec(tables, schema)->Ok_0;
    let e = expand(tables, schema.name@, schema.props@, tables.len())->Ok_0;
    let ex = exclusion_views(schema.excludes@) + e.excludes;
    let u = select_props(e.props, ex)->Ok_0;
    lemma_select(e.props, ex);
    assert forall|i: int, j: int|
        0 <= i < r.len() && 0 <= j < r.len() && i != j implies (#[trigger] r[i]).identifier
        != (#[trigger] r[j]).identifier by {
        let id = r[i].identifier;
        let f = |x: FlatPropView| x.identifier == id;
        lemma_count_concat(with_priority(u, true), with_priority(u, false), f);
        lemma_count_partition(u, f);
        assert forall|a: int, b: int| 0 <= a < b < u.len() implies !(f(#[trigger] u[a]) && f(
            #[trigger] u[b],
        )) by {
            assert(u[a].identifier != u[b].identifier);
        }
        lemma_count_at_most_one(u, f);
        if r[j].identifier == id {
            if i < j {
                lemma_count_two(r, f, i, j);
            } else {
                lemma_count_two(r, f, j, i);
            }
        }
    }
}

proof fn lemma_classes_each(tables: Seq<PropSchema>, classes: Seq<ServerClass>, n: int)
    requires
        0 <= n <= classes.len(),
        classes_flatten(tables, classes, n) is Ok,
    ensures
        classes_flatten(tables, classes, n)->Ok_0.len() == n,
        forall|c: int|
            0 <= c < n ==> class_flatten(tables, #[trigger] classes[c]) == Ok::<
                Seq<FlatPropView>,
                crate::sendprop::FlattenError,
            >(classes_flatten(tables, classes, n)->Ok_0[c]),
    decreases n,
{
    if n > 0 {
        lemma_classes_each(tables, classes, n - 1);
    }
}

/// For every server class of a capture, no two properties of its flattened
/// list share an identifier.
pub proof fn lemma_classes_identifiers_unique(tables: Seq<PropSchema>, classes: Seq<ServerClass>)
    requires
        classes_flatten(tables, classes, classes.len() as int) is Ok,
    ensures
        ({
            let all = classes_flatten(tables, classes, classes.len() as int)->Ok_0;
            forall|c: int, i: int, j: int|
                0 <= c < all.len() && 0 <= i < all[c].len() && 0 <= j < all[c].len() && i != j
                    ==> (#[trigger] all[c][i]).identifier != (#[trigger] all[c][j]).identifier
        }),
{
    let all = classes_flatten(tables, classes, classes.len() as int)->Ok_0;
    lemma_classes_each(tables, classes, classes.len() as int);
    assert forall|c: int, i: int, j: int|
        0 <= c < all.len() && 0 <= i < all[c].len() && 0 <= j < all[c].len() && i != j implies (
        #[trigger] all[c][i]).identifier != (#[trigger] all[c][j]).identifier by {
        assert(class_flatten(tables, classes[c]) is Ok);
        let k = table_position(tables, classes[c].data_table@, 0)->Some_0;
        lemma_flatten_identifiers_unique(tables, tables[k]);
    }
}

} // verus!
