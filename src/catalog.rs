//! A set of type descriptions keyed by name, held as a vector ordered by name.
use vstd::prelude::*;

use crate::order::{
    lemma_lex_asymmetric, lemma_lex_irreflexive, lemma_lex_total, lemma_lex_transitive, lex_lt,
    str_lt,
};
use crate::ros2_hashing::{descs_view, TypeDescription, TypeDescriptionView};

verus! {

/// Whether the names in `v` strictly increase.
pub open spec fn sorted_by_name(v: Seq<TypeDescriptionView>) -> bool {
    forall|i: int, j: int| 0 <= i < j < v.len() ==> lex_lt(#[trigger] v[i].name, #[trigger] v[j].name)
}

/// The descriptions of `v`, keyed by their names.
pub open spec fn map_of(v: Seq<TypeDescriptionView>) -> Map<Seq<char>, TypeDescriptionView> {
    Map::new(
        |k: Seq<char>| exists|i: int| 0 <= i < v.len() && #[trigger] v[i].name == k,
        |k: Seq<char>| v[choose|i: int| 0 <= i < v.len() && #[trigger] v[i].name == k],
    )
}

/// In a vector ordered by name, a name stands at one position only.
pub proof fn lemma_sorted_lookup(v: Seq<TypeDescriptionView>, i: int)
    requires
        sorted_by_name(v),
        0 <= i < v.len(),
    ensures
        map_of(v).contains_key(v[i].name),
        map_of(v)[v[i].name] == v[i],
{
    let k = v[i].name;
    assert(exists|j: int| 0 <= j < v.len() && #[trigger] v[j].name == k) by {
        assert(v[i].name == k);
    }
    let j = choose|j: int| 0 <= j < v.len() && #[trigger] v[j].name == k;
    if j < i {
        assert(lex_lt(v[j].name, v[i].name));
        lemma_lex_irreflexive(k);
    } else if i < j {
        assert(lex_lt(v[i].name, v[j].name));
        lemma_lex_irreflexive(k);
    }
}

/// Adds `d` to the ordered vector `v`, in place of a description of the same name.
pub fn insert_description(v: &mut Vec<TypeDescription>, d: TypeDescription)
    requires
        sorted_by_name(descs_view(old(v)@)),
    ensures
        sorted_by_name(descs_view(final(v)@)),
        map_of(descs_view(final(v)@)) == map_of(descs_view(old(v)@)).insert(d@.name, d@),
{
    let ghost old_view = descs_view(v@);
    let ghost dv = d@;
    let mut p: usize = 0;
    while p < v.len() && str_lt(v[p].name.as_str(), d.name.as_str())
        invariant
            p <= v@.len(),
            descs_view(v@) == old_view,
            dv == d@,
            forall|j: int| 0 <= j < p ==> lex_lt(#[trigger] old_view[j].name, dv.name),
        decreases v.len() - p,
    {
        p = p + 1;
    }
    let same = p < v.len() && !str_lt(d.name.as_str(), v[p].name.as_str());
    proof {
        if p < v.len() {
            assert(old_view[p as int] == v@[p as int]@);
            lemma_lex_total(old_view[p as int].name, dv.name);
            if !same {
                assert(lex_lt(dv.name, old_view[p as int].name));
            } else {
                assert(old_view[p as int].name == dv.name);
            }
        }
    }
    if same {
        v.set(p, d);
        proof {
            let nv = descs_view(v@);
            assert(nv =~= old_view.update(p as int, dv));
            assert(sorted_by_name(nv)) by {
                assert forall|i: int, j: int| 0 <= i < j < nv.len() implies lex_lt(
                    #[trigger] nv[i].name,
                    #[trigger] nv[j].name,
                ) by {
                    assert(lex_lt(old_view[i].name, old_view[j].name));
                }
            }
            assert(map_of(nv) =~= map_of(old_view).insert(dv.name, dv)) by {
                assert forall|k: Seq<char>| #[trigger] map_of(nv).contains_key(k) <==> map_of(
                    old_view,
                ).insert(dv.name, dv).contains_key(k) by {
                    if map_of(old_view).contains_key(k) {
                        let i = choose|i: int| 0 <= i < old_view.len() && #[trigger] old_view[i].name == k;
                        assert(nv[i].name == k);
                    }
                    if map_of(nv).contains_key(k) {
                        let i = choose|i: int| 0 <= i < nv.len() && #[trigger] nv[i].name == k;
                        assert(old_view[i].name == k);
                    }
                }
                assert forall|k: Seq<char>| #[trigger] map_of(nv).contains_key(k) implies map_of(
                    nv,
                )[k] == map_of(old_view).insert(dv.name, dv)[k] by {
                    let i = choose|i: int| 0 <= i < nv.len() && #[trigger] nv[i].name == k;
                    lemma_sorted_lookup(nv, i);
                    if i != p {
                        lemma_sorted_lookup(old_view, i);
                    }
                }
            }
        }
    } else {
        v.insert(p, d);
        proof {
            let nv = descs_view(v@);
            assert(nv =~= old_view.insert(p as int, dv));
            assert(sorted_by_name(nv)) by {
                assert forall|i: int, j: int| 0 <= i < j < nv.len() implies lex_lt(
                    #[trigger] nv[i].name,
                    #[trigger] nv[j].name,
                ) by {
                    if j < p {
                        assert(lex_lt(old_view[i].name, old_view[j].name));
                    } else if j == p {
                    } else if i < p {
                        assert(lex_lt(old_view[i].name, dv.name));
                        assert(lex_lt(dv.name, old_view[p as int].name));
                        if j - 1 > p {
                            assert(lex_lt(old_view[p as int].name, old_view[j - 1].name));
                            lemma_lex_transitive(dv.name, old_view[p as int].name, old_view[j - 1].name);
                        }
                        lemma_lex_transitive(old_view[i].name, dv.name, old_view[j - 1].name);
                    } else if i == p {
                        if j - 1 > p {
                            assert(lex_lt(old_view[p as int].name, old_view[j - 1].name));
                            lemma_lex_transitive(dv.name, old_view[p as int].name, old_view[j - 1].name);
                        }
                    } else {
                        assert(lex_lt(old_view[i - 1].name, old_view[j - 1].name));
                    }
                }
            }
            assert(map_of(nv) =~= map_of(old_view).insert(dv.name, dv)) by {
                assert forall|k: Seq<char>| #[trigger] map_of(nv).contains_key(k) <==> map_of(
                    old_view,
                ).insert(dv.name, dv).contains_key(k) by {
                    if map_of(old_view).contains_key(k) {
                        let i = choose|i: int| 0 <= i < old_view.len() && #[trigger] old_view[i].name == k;
                        if i < p {
                            assert(nv[i].name == k);
                        } else {
                            assert(nv[i + 1].name == k);
                        }
                    }
                    if k == dv.name {
                        assert(nv[p as int].name == k);
                    }
                    if map_of(nv).contains_key(k) {
                        let i = choose|i: int| 0 <= i < nv.len() && #[trigger] nv[i].name == k;
                        if i < p {
                            assert(old_view[i].name == k);
                        } else if i > p {
                            assert(old_view[i - 1].name == k);
                        }
                    }
                }
                assert forall|k: Seq<char>| #[trigger] map_of(nv).contains_key(k) implies map_of(
                    nv,
                )[k] == map_of(old_view).insert(dv.name, dv)[k] by {
                    let i = choose|i: int| 0 <= i < nv.len() && #[trigger] nv[i].name == k;
                    lemma_sorted_lookup(nv, i);
                    if i < p {
                        lemma_sorted_lookup(old_view, i);
                        assert(lex_lt(nv[i].name, dv.name));
                        lemma_lex_irreflexive(dv.name);
                    } else if i > p {
                        lemma_sorted_lookup(old_view, i - 1);
                        assert(lex_lt(dv.name, old_view[p as int].name));
                        if i - 1 > p {
                            assert(lex_lt(old_view[p as int].name, old_view[i - 1].name));
                            lemma_lex_transitive(dv.name, old_view[p as int].name, old_view[i - 1].name);
                        }
                        assert(lex_lt(dv.name, nv[i].name));
                        lemma_lex_irreflexive(dv.name);
                    }
                }
            }
        }
    }
}

/// Moves every description of `src` into the ordered vector `dst`; one of `src`
/// replaces one of the same name in `dst`.
pub fn merge_descriptions(dst: &mut Vec<TypeDescription>, src: Vec<TypeDescription>)
    requires
        sorted_by_name(descs_view(old(dst)@)),
        sorted_by_name(descs_view(src@)),
    ensures
        sorted_by_name(descs_view(final(dst)@)),
        map_of(descs_view(final(dst)@)) == map_of(descs_view(old(dst)@)).union_prefer_right(
            map_of(descs_view(src@)),
        ),
{
    let ghost acc = map_of(descs_view(dst@));
    let ghost all = descs_view(src@);
    let mut rest = src;
    proof {
        assert(descs_view(rest@).take(rest@.len() as int) =~= all);
        assert(map_of(all).remove_keys(map_of(all).dom()) =~= Map::empty());
        assert(acc.union_prefer_right(Map::empty()) =~= acc);
    }
    while rest.len() > 0
        invariant
            sorted_by_name(descs_view(dst@)),
            rest@.len() <= all.len(),
            descs_view(rest@) == all.take(rest@.len() as int),
            sorted_by_name(all),
            map_of(descs_view(dst@)) == acc.union_prefer_right(
                map_of(all).remove_keys(map_of(descs_view(rest@)).dom()),
            ),
        decreases rest.len(),
    {
        let ghost before = descs_view(rest@);
        let d = rest.pop().unwrap();
        let ghost after = descs_view(rest@);
        let ghost n = after.len();
        assert(after =~= before.drop_last());
        assert(before[n as int] == d@);
        assert(all[n as int] == d@);
        insert_description(dst, d);
        proof {
            lemma_sorted_lookup(all, n as int);
            assert forall|i: int, j: int| 0 <= i < j < after.len() implies lex_lt(
                #[trigger] after[i].name,
                #[trigger] after[j].name,
            ) by {
                assert(after[i] == all[i]);
                assert(after[j] == all[j]);
            }
            assert(map_of(before).dom() =~= map_of(after).dom().insert(d@.name)) by {
                assert forall|k: Seq<char>| #[trigger] map_of(before).dom().contains(k) <==> map_of(
                    after,
                ).dom().insert(d@.name).contains(k) by {
                    if map_of(before).contains_key(k) {
                        let i = choose|i: int| 0 <= i < before.len() && #[trigger] before[i].name == k;
                        if i < n {
                            assert(after[i].name == k);
                        }
                    }
                    if map_of(after).contains_key(k) {
                        let i = choose|i: int| 0 <= i < after.len() && #[trigger] after[i].name == k;
                        assert(before[i].name == k);
                    }
                    if k == d@.name {
                        assert(before[n as int].name == k);
                    }
                }
            }
            assert(!map_of(after).dom().contains(d@.name)) by {
                if map_of(after).dom().contains(d@.name) {
                    let i = choose|i: int| 0 <= i < after.len() && #[trigger] after[i].name == d@.name;
                    assert(all[i].name == d@.name);
                    assert(lex_lt(all[i].name, all[n as int].name));
                    lemma_lex_irreflexive(d@.name);
                }
            }
            assert(map_of(descs_view(dst@)) =~= acc.union_prefer_right(
                map_of(all).remove_keys(map_of(after).dom()),
            ));
        }
    }
    proof {
        assert(map_of(descs_view(rest@)).dom() =~= Set::empty());
        assert(map_of(all).remove_keys(Set::empty()) =~= map_of(all));
    }
}

/// Two vectors ordered by name that hold the same descriptions are equal.
pub proof fn lemma_sorted_unique(a: Seq<TypeDescriptionView>, b: Seq<TypeDescriptionView>)
    requires
        sorted_by_name(a),
        sorted_by_name(b),
        map_of(a) == map_of(b),
    ensures
        a == b,
    decreases a.len() + b.len(),
{
    if a.len() == 0 && b.len() == 0 {
        assert(a =~= b);
    } else if a.len() == 0 {
        lemma_sorted_lookup(b, 0);
        assert(!map_of(a).contains_key(b[0].name));
    } else if b.len() == 0 {
        lemma_sorted_lookup(a, 0);
        assert(!map_of(b).contains_key(a[0].name));
    } else {
        lemma_sorted_lookup(a, 0);
        lemma_sorted_lookup(b, 0);
        let ka = a[0].name;
        let kb = b[0].name;
        let i = choose|i: int| 0 <= i < b.len() && #[trigger] b[i].name == ka;
        let j = choose|j: int| 0 <= j < a.len() && #[trigger] a[j].name == kb;
        lemma_lex_total(ka, kb);
        if lex_lt(ka, kb) {
            if i > 0 {
                assert(lex_lt(kb, b[i].name));
                lemma_lex_asymmetric(ka, kb);
            } else {
                lemma_lex_irreflexive(ka);
            }
        }
        if lex_lt(kb, ka) {
            if j > 0 {
                assert(lex_lt(ka, a[j].name));
                lemma_lex_asymmetric(kb, ka);
            } else {
                lemma_lex_irreflexive(kb);
            }
        }
        assert(ka == kb);
        assert(a[0] == b[0]);
        let ta = a.drop_first();
        let tb = b.drop_first();
        assert(sorted_by_name(ta)) by {
            assert forall|x: int, y: int| 0 <= x < y < ta.len() implies lex_lt(
                #[trigger] ta[x].name,
                #[trigger] ta[y].name,
            ) by {
                assert(lex_lt(a[x + 1].name, a[y + 1].name));
            }
        }
        assert(sorted_by_name(tb)) by {
            assert forall|x: int, y: int| 0 <= x < y < tb.len() implies lex_lt(
                #[trigger] tb[x].name,
                #[trigger] tb[y].name,
            ) by {
                assert(lex_lt(b[x + 1].name, b[y + 1].name));
            }
        }
        lemma_drop_first_map(a);
        lemma_drop_first_map(b);
        lemma_sorted_unique(ta, tb);
        assert(a =~= seq![a[0]] + ta);
        assert(b =~= seq![b[0]] + tb);
    }
}

proof fn lemma_drop_first_map(a: Seq<TypeDescriptionView>)
    requires
        sorted_by_name(a),
        a.len() > 0,
    ensures
        map_of(a.drop_first()) == map_of(a).remove(a[0].name),
{
    let t = a.drop_first();
    assert(sorted_by_name(t)) by {
        assert forall|x: int, y: int| 0 <= x < y < t.len() implies lex_lt(
            #[trigger] t[x].name,
            #[trigger] t[y].name,
        ) by {
            assert(lex_lt(a[x + 1].name, a[y + 1].name));
        }
    }
    assert forall|k: Seq<char>| #[trigger] map_of(t).contains_key(k) <==> map_of(a).remove(
        a[0].name,
    ).contains_key(k) by {
        if map_of(t).contains_key(k) {
            let i = choose|i: int| 0 <= i < t.len() && #[trigger] t[i].name == k;
            assert(a[i + 1].name == k);
            assert(lex_lt(a[0].name, a[i + 1].name));
            lemma_lex_irreflexive(k);
        }
        if map_of(a).contains_key(k) && k != a[0].name {
            let i = choose|i: int| 0 <= i < a.len() && #[trigger] a[i].name == k;
            assert(t[i - 1].name == k);
        }
    }
    assert forall|k: Seq<char>| #[trigger] map_of(t).contains_key(k) implies map_of(t)[k]
        == map_of(a).remove(a[0].name)[k] by {
        let i = choose|i: int| 0 <= i < t.len() && #[trigger] t[i].name == k;
        lemma_sorted_lookup(t, i);
        lemma_sorted_lookup(a, i + 1);
    }
    assert(map_of(t) =~= map_of(a).remove(a[0].name));
}

} // verus!
