//! Properties of query binding that span its parts: the joins form one tree that holds every
//! dataset the query reads.

use vstd::prelude::*;

use super::bind::{
    spec_join_keys, filter_operator, bad_ref, model_named, BoundQueryV, dedup, filter_fields, missing, next_step, not_in, path_datasets, query_paths, required_datasets,
    rhs_paths, spec_bind, spec_field_ref, spec_join_order, spec_resolve, spec_root, BoundJoinV,
    lemma_step_shrinks, rhs_ref,
};
use crate::model::document::OsiDocument;
use crate::model::relationship::Relationship;
use crate::query::SemanticQuery;
use crate::text::strings_view;
use crate::resolver::error::QueryErrorV;
use crate::seqs::{first_match, lemma_first_match, lemma_first_match_none};

verus! {

/// The datasets in the join tree before join `k`: the root, then the datasets the earlier joins
/// attached.
pub open spec fn tree_before(inc: Seq<Seq<char>>, js: Seq<BoundJoinV>, k: int) -> Seq<Seq<char>> {
    inc + Seq::new(k as nat, |i: int| js[i].right)
}

/// Whether `js` grows a tree from `inc`: each join attaches a dataset not yet in it to one
/// already in it.
pub open spec fn grows_tree(inc: Seq<Seq<char>>, js: Seq<BoundJoinV>) -> bool {
    forall|k: int|
        0 <= k < js.len() ==> tree_before(inc, js, k).contains(#[trigger] js[k].left) && !tree_before(
            inc,
            js,
            k,
        ).contains(js[k].right)
}

proof fn lemma_missing_empty(req: Seq<Seq<char>>, inc: Seq<Seq<char>>)
    requires
        missing(req, inc).len() == 0,
    ensures
        forall|i: int| 0 <= i < req.len() ==> inc.contains(#[trigger] req[i]),
{
    assert forall|i: int| 0 <= i < req.len() implies inc.contains(#[trigger] req[i]) by {
        if !inc.contains(req[i]) {
            let p = not_in(inc);
            assert(p(req[i]));
            crate::seqs::lemma_filter_contains(req, p, i);
        }
    }
}

/// The joins that [`spec_join_order`] chooses grow a tree from `inc` that ends up holding every
/// required dataset, and attach only required datasets.
pub proof fn lemma_join_order_tree(rels: Seq<Relationship>, req: Seq<Seq<char>>, inc: Seq<Seq<char>>)
    requires
        spec_join_order(rels, req, inc) is Ok,
    ensures
        grows_tree(inc, spec_join_order(rels, req, inc)->Ok_0),
        forall|k: int|
            0 <= k < spec_join_order(rels, req, inc)->Ok_0.len() ==> req.contains(
                #[trigger] spec_join_order(rels, req, inc)->Ok_0[k].right,
            ),
        forall|i: int|
            0 <= i < req.len() ==> tree_before(
                inc,
                spec_join_order(rels, req, inc)->Ok_0,
                spec_join_order(rels, req, inc)->Ok_0.len() as int,
            ).contains(#[trigger] req[i]),
        forall|k: int|
            0 <= k < spec_join_order(rels, req, inc)->Ok_0.len() ==> exists|r: int|
                0 <= r < rels.len() && spec_join_keys(
                    (#[trigger] spec_join_order(rels, req, inc)->Ok_0[k]).left,
                    spec_join_order(rels, req, inc)->Ok_0[k].right,
                    rels[r],
                ) == Some(spec_join_order(rels, req, inc)->Ok_0[k].on),
    decreases missing(req, inc).len(),
{
    let js = spec_join_order(rels, req, inc)->Ok_0;
    if missing(req, inc).len() == 0 {
        lemma_missing_empty(req, inc);
        assert forall|i: int| 0 <= i < req.len() implies tree_before(inc, js, js.len() as int).contains(
            #[trigger] req[i],
        ) by {
            assert(tree_before(inc, js, js.len() as int) =~= inc);
        }
    } else {
        let j = next_step(rels, req, inc)->0;
        lemma_step_shrinks(rels, req, inc);
        let inc2 = inc.push(j.right);
        lemma_join_order_tree(rels, req, inc2);
        let rest = spec_join_order(rels, req, inc2)->Ok_0;
        assert(js == seq![j] + rest);
        assert forall|k: int| 0 <= k < rest.len() implies #[trigger] tree_before(inc, js, k + 1)
            == tree_before(inc2, rest, k) by {
            assert(tree_before(inc, js, k + 1) =~= tree_before(inc2, rest, k));
        }
        assert forall|k: int| 0 <= k < js.len() implies tree_before(inc, js, k).contains(
            #[trigger] js[k].left,
        ) && !tree_before(inc, js, k).contains(js[k].right) && req.contains(js[k].right) by {
            if k == 0 {
                assert(tree_before(inc, js, 0) =~= inc);
            } else {
                assert(js[k] == rest[k - 1]);
                assert(tree_before(inc, js, k) == tree_before(inc2, rest, k - 1));
            }
        }
        assert forall|i: int| 0 <= i < req.len() implies tree_before(inc, js, js.len() as int).contains(
            #[trigger] req[i],
        ) by {
            assert(tree_before(inc, js, js.len() as int) == tree_before(inc2, rest, rest.len() as int));
        }
        let ri = first_match(rels, super::bind::offers_step(req, inc));
        lemma_first_match(rels, super::bind::offers_step(req, inc));
        assert(spec_join_keys(j.left, j.right, rels[ri]) == Some(j.on));
        assert forall|k: int| 0 <= k < js.len() implies exists|r: int|
            0 <= r < rels.len() && spec_join_keys((#[trigger] js[k]).left, js[k].right, rels[r]) == Some(js[k].on) by {
            if k == 0 {
                assert(js[0] == j);
            } else {
                assert(js[k] == rest[k - 1]);
            }
        }
    }
}

proof fn lemma_dedup_contains(s: Seq<Seq<char>>, x: Seq<char>)
    ensures
        dedup(s).contains(x) <==> s.contains(x),
    decreases s.len(),
{
    if s.len() > 0 {
        let t = s.drop_last();
        lemma_dedup_contains(t, x);
        if t.contains(x) {
            let w = choose|w: int| 0 <= w < t.len() && t[w] == x;
            assert(s[w] == x);
        }
        if s.contains(x) && !t.contains(x) {
            let w = choose|w: int| 0 <= w < s.len() && s[w] == x;
            if w < t.len() {
                assert(t[w] == x);
            }
            assert(x == s.last());
        }
        if !dedup(t).contains(s.last()) {
            let d = dedup(t).push(s.last());
            if dedup(t).contains(x) {
                let w = choose|w: int| 0 <= w < dedup(t).len() && dedup(t)[w] == x;
                assert(d[w] == x);
            }
            assert(d[d.len() - 1] == s.last());
        }
    }
}

/// The dataset named by each valid field reference of a query is among the datasets it needs.
proof fn lemma_path_dataset_required(q: SemanticQuery, root: Seq<char>, j: int)
    requires
        0 <= j < query_paths(q).len(),
        spec_field_ref(query_paths(q)[j]) is Some,
    ensures
        required_datasets(path_datasets(query_paths(q)), root).contains(
            (spec_field_ref(query_paths(q)[j])->0).0,
        ),
{
    let paths = query_paths(q);
    let refs = Seq::new(paths.len(), |i: int| (spec_field_ref(paths[i])->0).0);
    let x = (spec_field_ref(paths[j])->0).0;
    assert(refs[j] == x);
    lemma_dedup_contains(refs, x);
    let pds = path_datasets(paths);
    assert(pds.contains(x));
    if !pds.contains(root) {
        let w = choose|w: int| 0 <= w < pds.len() && pds[w] == x;
        assert(pds.push(root)[w] == x);
    }
}

/// A successful binding joins the datasets it reads into one left-deep tree rooted at its root
/// dataset: each join attaches a dataset not yet in the tree to one already in it, and the
/// dataset of every group-by field, filter field and right-hand filter field ends up in the tree.
pub proof fn law_bind_join_tree(doc: OsiDocument, model_name: Seq<char>, q: SemanticQuery)
    requires
        spec_bind(doc, model_name, q) is Ok,
    ensures
        grows_tree(seq![spec_bind(doc, model_name, q)->Ok_0.root], spec_bind(doc, model_name, q)->Ok_0.joins),
        forall|i: int|
            0 <= i < spec_bind(doc, model_name, q)->Ok_0.group_by.len() ==> tree_before(
                seq![spec_bind(doc, model_name, q)->Ok_0.root],
                spec_bind(doc, model_name, q)->Ok_0.joins,
                spec_bind(doc, model_name, q)->Ok_0.joins.len() as int,
            ).contains((#[trigger] spec_bind(doc, model_name, q)->Ok_0.group_by[i]).0),
        forall|i: int|
            0 <= i < spec_bind(doc, model_name, q)->Ok_0.filters.len() ==> tree_before(
                seq![spec_bind(doc, model_name, q)->Ok_0.root],
                spec_bind(doc, model_name, q)->Ok_0.joins,
                spec_bind(doc, model_name, q)->Ok_0.joins.len() as int,
            ).contains((#[trigger] spec_bind(doc, model_name, q)->Ok_0.filters[i]).0),
        forall|i: int|
            0 <= i < spec_bind(doc, model_name, q)->Ok_0.filters.len() && (#[trigger] spec_bind(
                doc,
                model_name,
                q,
            )->Ok_0.filters[i]).4 is Some ==> tree_before(
                seq![spec_bind(doc, model_name, q)->Ok_0.root],
                spec_bind(doc, model_name, q)->Ok_0.joins,
                spec_bind(doc, model_name, q)->Ok_0.joins.len() as int,
            ).contains((spec_bind(doc, model_name, q)->Ok_0.filters[i].4->0).0),
{
    let b = spec_bind(doc, model_name, q)->Ok_0;
    let mi = crate::seqs::first_match(doc.semantic_model@, super::bind::model_named(model_name));
    let m = doc.semantic_model@[mi];
    let paths = query_paths(q);
    let bad = super::bind::bad_ref();
    crate::seqs::lemma_first_match(paths, bad);
    let pds = path_datasets(paths);
    let root = spec_root(q, pds)->Ok_0;
    let req = required_datasets(pds, root);
    let tree = tree_before(seq![b.root], b.joins, b.joins.len() as int);
    assert(b.root == root);
    // Every required dataset is in the tree.
    assert forall|i: int| 0 <= i < req.len() implies tree.contains(#[trigger] req[i]) by {
        if req.len() <= 1 {
            assert(req.contains(root)) by {
                if pds.contains(root) {
                } else {
                    assert(req[req.len() - 1] == root);
                }
            }
            let w = choose|w: int| 0 <= w < req.len() && req[w] == root;
            assert(req[i] == root);
            assert(b.joins.len() == 0);
            assert(tree[0] == root);
        } else {
            lemma_join_order_tree(m.relationships@, req, seq![root]);
        }
    }
    if req.len() > 1 {
        lemma_join_order_tree(m.relationships@, req, seq![root]);
    } else {
        assert(b.joins.len() == 0);
    }
    let gb = strings_view(q.group_by@);
    let fl = filter_fields(q.filters@);
    let rl = rhs_paths(q.filters@);
    crate::seqs::lemma_first_match(gb, super::bind::unresolved(m));
    crate::seqs::lemma_first_match(fl, super::bind::unresolved(m));
    crate::seqs::lemma_first_match(rl, super::bind::unresolved(m));
    assert forall|i: int| 0 <= i < b.group_by.len() implies tree.contains(
        (#[trigger] b.group_by[i]).0,
    ) by {
        assert(paths[i] == gb[i]);
        assert(!bad(paths[i]));
        assert(b.group_by[i] == spec_resolve(m, gb[i])->Ok_0);
        assert(!super::bind::unresolved(m)(gb[i]));
        assert(b.group_by[i].0 == (spec_field_ref(gb[i])->0).0);
        lemma_path_dataset_required(q, root, i);
        let w = choose|w: int| 0 <= w < req.len() && req[w] == (spec_field_ref(paths[i])->0).0;
        assert(tree.contains(req[w]));
    }
    assert forall|i: int| 0 <= i < b.filters.len() implies tree.contains((#[trigger] b.filters[i]).0) by {
        assert(paths[gb.len() + i] == fl[i]);
        assert(!bad(paths[gb.len() + i]));
        assert(b.filters[i].0 == (spec_resolve(m, fl[i])->Ok_0).0);
        assert(!super::bind::unresolved(m)(fl[i]));
        assert(b.filters[i].0 == (spec_field_ref(fl[i])->0).0);
        lemma_path_dataset_required(q, root, gb.len() + i);
        let w = choose|w: int| 0 <= w < req.len() && req[w] == (spec_field_ref(fl[i])->0).0;
        assert(tree.contains(req[w]));
    }
    assert forall|i: int| 0 <= i < b.filters.len() && (#[trigger] b.filters[i]).4 is Some implies tree.contains(
        (b.filters[i].4->0).0,
    ) by {
        let f = q.filters@[i];
        let r = super::bind::rhs_ref(f)->0;
        let n: int = rhs_paths(q.filters@.take(i)).len() as int;
        super::bind::lemma_rhs_paths_prefix(q.filters@, i + 1);
        assert(q.filters@.take(i + 1).drop_last() =~= q.filters@.take(i));
        assert(q.filters@.take(i + 1).last() == f);
        assert(rhs_paths(q.filters@.take(i + 1))[n] == r);
        assert(rl[n] == r);
        assert(!super::bind::unresolved(m)(r));
        assert(b.filters[i].4 == Some(spec_resolve(m, r)->Ok_0));
        assert((b.filters[i].4->0).0 == (spec_field_ref(r)->0).0);
        assert(paths[gb.len() + fl.len() + n] == r);
        assert(!bad(paths[gb.len() + fl.len() + n]));
        lemma_path_dataset_required(q, root, gb.len() + fl.len() + n);
        let w = choose|w: int| 0 <= w < req.len() && req[w] == (spec_field_ref(r)->0).0;
        assert(tree.contains(req[w]));
    }
}

/// The model lookup: binding is refused with `ModelNotFound` exactly when the model name is
/// empty or names no model of the document (carrying the name, or nothing for an empty one).
pub proof fn law_model_lookup(doc: OsiDocument, model_name: Seq<char>, q: SemanticQuery)
    ensures
        (spec_bind(doc, model_name, q) matches Err(QueryErrorV::ModelNotFound(n))) <==> (model_name.len() == 0
            || !exists|i: int|
            0 <= i < doc.semantic_model@.len() && (#[trigger] doc.semantic_model@[i]).name@ == model_name),
        model_name.len() == 0 ==> spec_bind(doc, model_name, q) == Err::<BoundQueryV, QueryErrorV>(
            QueryErrorV::ModelNotFound(Seq::empty()),
        ),
        model_name.len() > 0 && !(exists|i: int|
            0 <= i < doc.semantic_model@.len() && (#[trigger] doc.semantic_model@[i]).name@ == model_name)
            ==> spec_bind(doc, model_name, q) == Err::<BoundQueryV, QueryErrorV>(QueryErrorV::ModelNotFound(model_name)),
{
    let ms = doc.semantic_model@;
    lemma_first_match(ms, model_named(model_name));
    let mi = first_match(ms, model_named(model_name));
    if exists|i: int| 0 <= i < ms.len() && (#[trigger] ms[i]).name@ == model_name {
        let w = choose|i: int| 0 <= i < ms.len() && (#[trigger] ms[i]).name@ == model_name;
        assert(model_named(model_name)(ms[w]));
        assert(mi >= 0);
        if model_name.len() > 0 {
            lemma_bind_past_model(doc, model_name, q);
        }
    } else {
        if mi >= 0 {
            assert(model_named(model_name)(ms[mi]));
        }
    }
}

/// Past the model lookup, binding never reports `ModelNotFound`.
proof fn lemma_bind_past_model(doc: OsiDocument, model_name: Seq<char>, q: SemanticQuery)
    requires
        model_name.len() > 0,
        first_match(doc.semantic_model@, model_named(model_name)) >= 0,
    ensures
        !(spec_bind(doc, model_name, q) matches Err(QueryErrorV::ModelNotFound(_))),
{
    let m = doc.semantic_model@[first_match(doc.semantic_model@, model_named(model_name))];
    let paths = query_paths(q);
    if first_match(paths, bad_ref()) < 0 {
        let pds = path_datasets(paths);
        if spec_root(q, pds) is Ok {
            let req = required_datasets(pds, spec_root(q, pds)->Ok_0);
            let gb = strings_view(q.group_by@);
            let fl = filter_fields(q.filters@);
            let rl = rhs_paths(q.filters@);
            let gi = first_match(gb, super::bind::unresolved(m));
            let fi = first_match(fl, super::bind::unresolved(m));
            let ri = first_match(rl, super::bind::unresolved(m));
            lemma_first_match(gb, super::bind::unresolved(m));
            lemma_first_match(fl, super::bind::unresolved(m));
            lemma_first_match(rl, super::bind::unresolved(m));
            if gi >= 0 {
                lemma_resolve_error(m, gb[gi]);
            } else if fi >= 0 {
                lemma_resolve_error(m, fl[fi]);
            } else if ri >= 0 {
                lemma_resolve_error(m, rl[ri]);
            }
        }
    }
}

/// A resolution error names a dataset or a field, never a model.
proof fn lemma_resolve_error(m: crate::model::semantic_model::SemanticModel, p: Seq<char>)
    ensures
        spec_resolve(m, p) matches Err(e) ==> (e is DatasetNotFound || e is FieldNotFound),
{
}

/// Laws of the query anchor: with the model present, a query that asks for nothing is refused
/// as empty; a query with metrics but no field references needs `dataset` as its scan target;
/// and a query whose valid references span two or more datasets needs `dataset` as its join
/// root.
pub proof fn law_query_anchor(doc: OsiDocument, model_name: Seq<char>, q: SemanticQuery)
    requires
        model_name.len() > 0,
        exists|i: int| 0 <= i < doc.semantic_model@.len() && (#[trigger] doc.semantic_model@[i]).name@ == model_name,
    ensures
        q.group_by@.len() == 0 && q.filters@.len() == 0 && q.metrics@.len() == 0 ==> spec_bind(doc, model_name, q)
            == Err::<BoundQueryV, QueryErrorV>(QueryErrorV::EmptyQuery),
        q.group_by@.len() == 0 && q.filters@.len() == 0 && q.metrics@.len() > 0 && q.dataset is None ==> spec_bind(
            doc,
            model_name,
            q,
        ) == Err::<BoundQueryV, QueryErrorV>(QueryErrorV::MissingBaseDataset),
        (forall|j: int| 0 <= j < query_paths(q).len() ==> spec_field_ref(#[trigger] query_paths(q)[j]) is Some)
            && path_datasets(query_paths(q)).len() >= 2 && q.dataset is None ==> spec_bind(doc, model_name, q)
            == Err::<BoundQueryV, QueryErrorV>(QueryErrorV::MissingRootDataset),
{
    let mi = first_match(doc.semantic_model@, model_named(model_name));
    let w = choose|i: int| 0 <= i < doc.semantic_model@.len() && (#[trigger] doc.semantic_model@[i]).name@ == model_name;
    lemma_first_match(doc.semantic_model@, model_named(model_name));
    assert(model_named(model_name)(doc.semantic_model@[w]));
    assert(mi >= 0);
    let paths = query_paths(q);
    if q.group_by@.len() == 0 && q.filters@.len() == 0 {
        assert(rhs_paths(q.filters@) =~= Seq::<Seq<char>>::empty());
        assert(paths =~= Seq::<Seq<char>>::empty());
        assert(first_match(paths, bad_ref()) == -1);
        assert(Seq::new(paths.len(), |i: int| (spec_field_ref(paths[i])->0).0) =~= Seq::<Seq<char>>::empty());
        assert(path_datasets(paths) =~= Seq::<Seq<char>>::empty());
    }
    if (forall|j: int| 0 <= j < paths.len() ==> spec_field_ref(#[trigger] paths[j]) is Some) {
        lemma_first_match_none(paths, bad_ref());
    }
}

/// A valid field reference is its dataset name, a dot, and its field name.
proof fn lemma_field_ref_parts(p: Seq<char>)
    requires
        spec_field_ref(p) is Some,
    ensures
        (spec_field_ref(p)->0).0 + seq!['.'] + (spec_field_ref(p)->0).1 == p,
{
    let i = crate::text::char_index(p, '.');
    lemma_first_match(p, crate::text::is_char('.'));
    assert(p[i] == '.');
    assert((spec_field_ref(p)->0).0 + seq!['.'] + (spec_field_ref(p)->0).1 =~= p);
}

/// A successful binding keeps the query's shape: it names the model it used; its root is the
/// query's `dataset` when one is given; it has one resolved field per group-by reference, naming
/// that reference's dataset and a field of that name; one metric per requested metric, of that
/// name; and one bound filter per filter, on the filter's field, with the filter's value and its
/// operator made explicit (`in` for an array value and `eq` otherwise when none is given). Each
/// source it lists is the source of the model's dataset of that name.
#[verifier::spinoff_prover]
pub proof fn law_bind_result(doc: OsiDocument, model_name: Seq<char>, q: SemanticQuery)
    requires
        spec_bind(doc, model_name, q) is Ok,
    ensures
        spec_bind(doc, model_name, q)->Ok_0.model_name == model_name,
        q.dataset matches Some(d) ==> spec_bind(doc, model_name, q)->Ok_0.root == d@,
        spec_bind(doc, model_name, q)->Ok_0.group_by.len() == q.group_by@.len(),
        forall|i: int|
            0 <= i < q.group_by@.len() ==> (#[trigger] spec_bind(doc, model_name, q)->Ok_0.group_by[i]).0 + seq!['.']
                + spec_bind(doc, model_name, q)->Ok_0.group_by[i].1.name@ == q.group_by@[i]@,
        spec_bind(doc, model_name, q)->Ok_0.metrics.len() == q.metrics@.len(),
        forall|i: int|
            0 <= i < q.metrics@.len() ==> (#[trigger] spec_bind(doc, model_name, q)->Ok_0.metrics[i]).name@
                == q.metrics@[i]@,
        spec_bind(doc, model_name, q)->Ok_0.filters.len() == q.filters@.len(),
        forall|i: int|
            0 <= i < q.filters@.len() ==> {
                &&& (#[trigger] spec_bind(doc, model_name, q)->Ok_0.filters[i]).0 + seq!['.']
                    + spec_bind(doc, model_name, q)->Ok_0.filters[i].1.name@ == q.filters@[i].field@
                &&& spec_bind(doc, model_name, q)->Ok_0.filters[i].2 == filter_operator(q.filters@[i])
                &&& spec_bind(doc, model_name, q)->Ok_0.filters[i].3 == q.filters@[i].value@
            },
        forall|k: int|
            0 <= k < spec_bind(doc, model_name, q)->Ok_0.sources.len() ==> exists|d: int|
                0 <= d < doc.semantic_model@[first_match(doc.semantic_model@, model_named(model_name))].datasets@.len()
                    && (#[trigger] spec_bind(doc, model_name, q)->Ok_0.sources[k]).0
                    == doc.semantic_model@[first_match(doc.semantic_model@, model_named(model_name))].datasets@[d].name@
                    && spec_bind(doc, model_name, q)->Ok_0.sources[k].1
                    == doc.semantic_model@[first_match(doc.semantic_model@, model_named(model_name))].datasets@[d].source@,
{
    let b = spec_bind(doc, model_name, q)->Ok_0;
    let ms = doc.semantic_model@;
    let mi = first_match(ms, model_named(model_name));
    lemma_first_match(ms, model_named(model_name));
    let m = ms[mi];
    assert(model_named(model_name)(m));
    let paths = query_paths(q);
    let pds = path_datasets(paths);
    let root = spec_root(q, pds)->Ok_0;
    let req = required_datasets(pds, root);
    let gb = strings_view(q.group_by@);
    let fl = filter_fields(q.filters@);
    lemma_first_match(paths, bad_ref());
    lemma_first_match(gb, super::bind::unresolved(m));
    lemma_first_match(fl, super::bind::unresolved(m));
    lemma_first_match(req, super::bind::unknown_dataset(m));
    assert forall|i: int| 0 <= i < q.group_by@.len() implies (#[trigger] b.group_by[i]).0 + seq!['.']
        + b.group_by[i].1.name@ == q.group_by@[i]@ by {
        assert(gb[i] == q.group_by@[i]@);
        assert(paths[i] == gb[i]);
        assert(!bad_ref()(paths[i]));
        assert(!super::bind::unresolved(m)(gb[i]));
        let fields = m.datasets@[super::bind::dataset_index(m, (spec_field_ref(gb[i])->0).0)].fields@;
        let f = (spec_field_ref(gb[i])->0).1;
        lemma_first_match(fields, super::bind::field_named(f));
        assert(super::bind::field_named(f)(b.group_by[i].1));
        lemma_field_ref_parts(gb[i]);
    }
    let mets = strings_view(q.metrics@);
    lemma_first_match(mets, super::bind::unknown_metric(m));
    assert forall|i: int| 0 <= i < q.metrics@.len() implies (#[trigger] b.metrics[i]).name@ == q.metrics@[i]@ by {
        assert(mets[i] == q.metrics@[i]@);
        assert(!super::bind::unknown_metric(m)(mets[i]));
        lemma_first_match(m.metrics@, super::bind::metric_named(mets[i]));
        assert(super::bind::metric_named(mets[i])(b.metrics[i]));
    }
    assert forall|i: int| 0 <= i < q.filters@.len() implies {
        &&& (#[trigger] b.filters[i]).0 + seq!['.'] + b.filters[i].1.name@ == q.filters@[i].field@
        &&& b.filters[i].2 == filter_operator(q.filters@[i])
        &&& b.filters[i].3 == q.filters@[i].value@
    } by {
        assert(fl[i] == q.filters@[i].field@);
        assert(paths[gb.len() + i] == fl[i]);
        assert(!bad_ref()(paths[gb.len() + i]));
        assert(!super::bind::unresolved(m)(fl[i]));
        let fields = m.datasets@[super::bind::dataset_index(m, (spec_field_ref(fl[i])->0).0)].fields@;
        let f = (spec_field_ref(fl[i])->0).1;
        lemma_first_match(fields, super::bind::field_named(f));
        assert(super::bind::field_named(f)(b.filters[i].1));
        lemma_field_ref_parts(fl[i]);
    }
    assert forall|k: int| 0 <= k < b.sources.len() implies exists|d: int|
        0 <= d < m.datasets@.len() && (#[trigger] b.sources[k]).0 == m.datasets@[d].name@ && b.sources[k].1
            == m.datasets@[d].source@ by {
        let di = super::bind::dataset_index(m, req[k]);
        assert(!super::bind::unknown_dataset(m)(req[k]));
        crate::seqs::lemma_last_match(m.datasets@, super::bind::dataset_named(req[k]));
        assert(super::bind::dataset_named(req[k])(m.datasets@[di]));
        assert(b.sources[k] == (req[k], m.datasets@[di].source@));
    }
}

/// `dedup` lists nothing twice.
proof fn lemma_dedup_no_duplicates(s: Seq<Seq<char>>)
    ensures
        dedup(s).no_duplicates(),
    decreases s.len(),
{
    if s.len() > 0 {
        lemma_dedup_no_duplicates(s.drop_last());
    }
}

/// A tree grown from one dataset lists nothing twice.
proof fn lemma_tree_no_duplicates(root: Seq<char>, js: Seq<BoundJoinV>)
    requires
        grows_tree(seq![root], js),
    ensures
        tree_before(seq![root], js, js.len() as int).no_duplicates(),
{
    let t = tree_before(seq![root], js, js.len() as int);
    assert forall|i: int, j: int| 0 <= i < t.len() && 0 <= j < t.len() && i != j implies t[i] != t[j] by {
        let (a, c) = if i < j { (i, j) } else { (j, i) };
        let before = tree_before(seq![root], js, c - 1);
        assert(before.contains(js[c - 1].left));
        assert(!before.contains(js[c - 1].right));
        assert(t[c] == js[c - 1].right);
        assert(before[a] == t[a]);
    }
}

/// Dup-free sequences holding the same elements have the same length.
proof fn lemma_same_elements_same_len(a: Seq<Seq<char>>, b: Seq<Seq<char>>)
    requires
        a.no_duplicates(),
        b.no_duplicates(),
        forall|i: int| 0 <= i < a.len() ==> b.contains(#[trigger] a[i]),
        forall|i: int| 0 <= i < b.len() ==> a.contains(#[trigger] b[i]),
    ensures
        a.len() == b.len(),
{
    a.unique_seq_to_set();
    b.unique_seq_to_set();
    assert forall|x: Seq<char>| a.to_set().contains(x) <==> b.to_set().contains(x) by {
        if a.contains(x) {
            let w = choose|w: int| 0 <= w < a.len() && a[w] == x;
            assert(b.contains(a[w]));
        }
        if b.contains(x) {
            let w = choose|w: int| 0 <= w < b.len() && b[w] == x;
            assert(a.contains(b[w]));
        }
    }
    assert(a.to_set() =~= b.to_set());
}

/// The dataset names of listed sources, in order.
pub open spec fn source_names(sources: Seq<(Seq<char>, Seq<char>)>) -> Seq<Seq<char>> {
    Seq::new(sources.len(), |k: int| sources[k].0)
}

/// The joins of a successful binding: each follows a relationship of the model, in either
/// direction, with one key per column pair of it; each attaches a dataset not yet joined to one
/// already joined, so the root and the attached datasets are pairwise distinct; and the join
/// tree holds exactly the datasets whose sources the binding lists, so there is one join fewer
/// than sources.
#[verifier::spinoff_prover]
#[verifier::rlimit(40)]
pub proof fn law_bind_joins(doc: OsiDocument, model_name: Seq<char>, q: SemanticQuery)
    requires
        spec_bind(doc, model_name, q) is Ok,
    ensures
        forall|k: int|
            0 <= k < spec_bind(doc, model_name, q)->Ok_0.joins.len() ==> exists|r: int|
                0 <= r < doc.semantic_model@[first_match(doc.semantic_model@, model_named(model_name))].relationships@.len()
                    && spec_join_keys(
                    (#[trigger] spec_bind(doc, model_name, q)->Ok_0.joins[k]).left,
                    spec_bind(doc, model_name, q)->Ok_0.joins[k].right,
                    doc.semantic_model@[first_match(doc.semantic_model@, model_named(model_name))].relationships@[r],
                ) == Some(spec_bind(doc, model_name, q)->Ok_0.joins[k].on),
        spec_bind(doc, model_name, q)->Ok_0.joins.len() + 1 == spec_bind(doc, model_name, q)->Ok_0.sources.len(),
        forall|x: Seq<char>|
            tree_before(
                seq![spec_bind(doc, model_name, q)->Ok_0.root],
                spec_bind(doc, model_name, q)->Ok_0.joins,
                spec_bind(doc, model_name, q)->Ok_0.joins.len() as int,
            ).contains(x) <==> #[trigger] source_names(spec_bind(doc, model_name, q)->Ok_0.sources).contains(x),
        grows_tree(seq![spec_bind(doc, model_name, q)->Ok_0.root], spec_bind(doc, model_name, q)->Ok_0.joins),
        tree_before(
            seq![spec_bind(doc, model_name, q)->Ok_0.root],
            spec_bind(doc, model_name, q)->Ok_0.joins,
            spec_bind(doc, model_name, q)->Ok_0.joins.len() as int,
        ).no_duplicates(),
{
    law_bind_join_tree(doc, model_name, q);
    let b = spec_bind(doc, model_name, q)->Ok_0;
    let ms = doc.semantic_model@;
    let mi = first_match(ms, model_named(model_name));
    lemma_first_match(ms, model_named(model_name));
    let m = ms[mi];
    let paths = query_paths(q);
    let pds = path_datasets(paths);
    let root = spec_root(q, pds)->Ok_0;
    let req = required_datasets(pds, root);
    let js = b.joins;
    let tree = tree_before(seq![root], js, js.len() as int);
    assert(b.root == root);
    assert(b.sources.len() == req.len());
    assert forall|k: int| 0 <= k < req.len() implies #[trigger] b.sources[k].0 == req[k] by {}
    lemma_dedup_no_duplicates(Seq::new(paths.len(), |i: int| (spec_field_ref(paths[i])->0).0));
    assert(req.contains(root)) by {
        if !pds.contains(root) {
            assert(req[req.len() - 1] == root);
        }
    }
    assert(req.no_duplicates()) by {
        if !pds.contains(root) {
            assert forall|i: int, j: int| 0 <= i < req.len() && 0 <= j < req.len() && i != j implies req[i]
                != req[j] by {
                if i == pds.len() {
                    assert(pds[j] == req[j]);
                } else if j == pds.len() {
                    assert(pds[i] == req[i]);
                }
            }
        }
    }
    if req.len() <= 1 {
        assert(js.len() == 0);
        assert(tree =~= seq![root]);
        let w = choose|w: int| 0 <= w < req.len() && req[w] == root;
        assert forall|k: int| 0 <= k < req.len() implies tree.contains(#[trigger] req[k]) by {
            assert(req[k] == root);
            assert(tree[0] == root);
        }
        assert forall|i: int| 0 <= i < tree.len() implies req.contains(#[trigger] tree[i]) by {
            assert(tree[i] == root);
        }
    } else {
        lemma_join_order_tree(m.relationships@, req, seq![root]);
        lemma_tree_no_duplicates(root, js);
        assert forall|i: int| 0 <= i < tree.len() implies req.contains(#[trigger] tree[i]) by {
            if i > 0 {
                assert(tree[i] == js[i - 1].right);
            }
        }
        lemma_same_elements_same_len(tree, req);
        assert forall|k: int| 0 <= k < req.len() implies tree.contains(#[trigger] req[k]) by {}
    }
    let names = source_names(b.sources);
    assert(names =~= req);
    assert(tree == tree_before(seq![b.root], b.joins, b.joins.len() as int));
    assert forall|x: Seq<char>| tree.contains(x) <==> #[trigger] names.contains(x) by {
        if tree.contains(x) {
            let i = choose|i: int| 0 <= i < tree.len() && tree[i] == x;
            assert(req.contains(tree[i]));
        }
        if names.contains(x) {
            let k = choose|k: int| 0 <= k < req.len() && req[k] == x;
            assert(tree.contains(req[k]));
        }
    }
}

/// Each right-hand reference comes from a filter that names it.
proof fn lemma_rhs_path_origin(fs: Seq<crate::query::FilterSpec>, r: int)
    requires
        0 <= r < rhs_paths(fs).len(),
    ensures
        exists|i: int| 0 <= i < fs.len() && #[trigger] rhs_ref(fs[i]) == Some(rhs_paths(fs)[r]),
    decreases fs.len(),
{
    let t = fs.drop_last();
    match rhs_ref(fs.last()) {
        Some(x) => {
            if r == rhs_paths(t).len() {
                assert(rhs_ref(fs[fs.len() - 1]) == Some(rhs_paths(fs)[r]));
            } else {
                lemma_rhs_path_origin(t, r);
                let i = choose|i: int| 0 <= i < t.len() && #[trigger] rhs_ref(t[i]) == Some(rhs_paths(t)[r]);
                assert(fs[i] == t[i]);
            }
        },
        None => {
            lemma_rhs_path_origin(t, r);
            let i = choose|i: int| 0 <= i < t.len() && #[trigger] rhs_ref(t[i]) == Some(rhs_paths(t)[r]);
            assert(fs[i] == t[i]);
        },
    }
}

/// The datasets whose sources a successful binding lists are exactly its root and the datasets
/// of its group-by fields, its filter fields and the right-hand fields of its field comparisons.
#[verifier::spinoff_prover]
#[verifier::rlimit(40)]
pub proof fn law_bind_sources(doc: OsiDocument, model_name: Seq<char>, q: SemanticQuery, n: Seq<char>)
    requires
        spec_bind(doc, model_name, q) is Ok,
    ensures
        (exists|k: int|
            0 <= k < spec_bind(doc, model_name, q)->Ok_0.sources.len() && (#[trigger] spec_bind(
                doc,
                model_name,
                q,
            )->Ok_0.sources[k]).0 == n) <==> {
            ||| n == spec_bind(doc, model_name, q)->Ok_0.root
            ||| exists|i: int|
                0 <= i < spec_bind(doc, model_name, q)->Ok_0.group_by.len() && (#[trigger] spec_bind(
                    doc,
                    model_name,
                    q,
                )->Ok_0.group_by[i]).0 == n
            ||| exists|i: int|
                0 <= i < spec_bind(doc, model_name, q)->Ok_0.filters.len() && (#[trigger] spec_bind(
                    doc,
                    model_name,
                    q,
                )->Ok_0.filters[i]).0 == n
            ||| exists|i: int|
                0 <= i < spec_bind(doc, model_name, q)->Ok_0.filters.len() && (#[trigger] spec_bind(
                    doc,
                    model_name,
                    q,
                )->Ok_0.filters[i]).4 is Some && (spec_bind(doc, model_name, q)->Ok_0.filters[i].4->0).0 == n
        },
{
    law_bind_join_tree(doc, model_name, q);
    law_bind_joins(doc, model_name, q);
    let b = spec_bind(doc, model_name, q)->Ok_0;
    let ms = doc.semantic_model@;
    let mi = first_match(ms, model_named(model_name));
    let m = ms[mi];
    let paths = query_paths(q);
    let pds = path_datasets(paths);
    let root = spec_root(q, pds)->Ok_0;
    let req = required_datasets(pds, root);
    let tree = tree_before(seq![b.root], b.joins, b.joins.len() as int);
    let gb = strings_view(q.group_by@);
    let fl = filter_fields(q.filters@);
    let rl = rhs_paths(q.filters@);
    lemma_first_match(paths, bad_ref());
    lemma_first_match(gb, super::bind::unresolved(m));
    lemma_first_match(fl, super::bind::unresolved(m));
    lemma_first_match(rl, super::bind::unresolved(m));
    // From a listed source to what names it.
    if exists|k: int| 0 <= k < b.sources.len() && (#[trigger] b.sources[k]).0 == n {
        let k = choose|k: int| 0 <= k < b.sources.len() && (#[trigger] b.sources[k]).0 == n;
        assert(b.sources[k].0 == req[k]);
        if n != root {
            assert(pds.contains(n)) by {
                if !pds.contains(root) && k == pds.len() {
                    assert(req[k] == root);
                } else {
                    assert(req[k] == pds[k]);
                }
            }
            let refs = Seq::new(paths.len(), |i: int| (spec_field_ref(paths[i])->0).0);
            lemma_dedup_contains(refs, n);
            let j = choose|j: int| 0 <= j < refs.len() && refs[j] == n;
            assert(!bad_ref()(paths[j]));
            if j < gb.len() {
                assert(paths[j] == gb[j]);
                assert(!super::bind::unresolved(m)(gb[j]));
                assert(b.group_by[j].0 == n);
            } else if j < gb.len() + fl.len() {
                let i = j - gb.len();
                assert(paths[j] == fl[i]);
                assert(!super::bind::unresolved(m)(fl[i]));
                assert(b.filters[i].0 == n);
            } else {
                let r = j - gb.len() - fl.len();
                assert(paths[j] == rl[r]);
                assert(!super::bind::unresolved(m)(rl[r]));
                lemma_rhs_path_origin(q.filters@, r);
                let i = choose|i: int| 0 <= i < q.filters@.len() && #[trigger] rhs_ref(q.filters@[i]) == Some(rl[r]);
                assert(b.filters[i].4 == Some(spec_resolve(m, rl[r])->Ok_0));
                assert(b.filters[i].4 is Some && (b.filters[i].4->0).0 == n);
            }
        }
    }
    // From what names a dataset to its listed source.
    let named = {
        ||| n == b.root
        ||| exists|i: int| 0 <= i < b.group_by.len() && (#[trigger] b.group_by[i]).0 == n
        ||| exists|i: int| 0 <= i < b.filters.len() && (#[trigger] b.filters[i]).0 == n
        ||| exists|i: int| 0 <= i < b.filters.len() && (#[trigger] b.filters[i]).4 is Some && (b.filters[i].4->0).0 == n
    };
    if named {
        assert(tree.contains(n)) by {
            if n == b.root {
                assert(tree[0] == b.root);
            } else if exists|i: int| 0 <= i < b.group_by.len() && (#[trigger] b.group_by[i]).0 == n {
                let i = choose|i: int| 0 <= i < b.group_by.len() && (#[trigger] b.group_by[i]).0 == n;
                assert(tree.contains(b.group_by[i].0));
            } else if exists|i: int| 0 <= i < b.filters.len() && (#[trigger] b.filters[i]).0 == n {
                let i = choose|i: int| 0 <= i < b.filters.len() && (#[trigger] b.filters[i]).0 == n;
                assert(tree.contains(b.filters[i].0));
            } else {
                let i = choose|i: int|
                    0 <= i < b.filters.len() && (#[trigger] b.filters[i]).4 is Some && (b.filters[i].4->0).0 == n;
                assert(tree.contains((b.filters[i].4->0).0));
            }
        }
        assert(source_names(b.sources).contains(n));
        let k = choose|k: int| 0 <= k < source_names(b.sources).len() && source_names(b.sources)[k] == n;
        assert(b.sources[k].0 == n);
    }
}

/// Whether `j` joins along `rel` with one key per column pair of it: in the relationship's own
/// direction each key reads `from` column `i` on the left and `to` column `i` on the right; in
/// the other direction the other way round.
pub open spec fn keys_follow(j: BoundJoinV, rel: Relationship) -> bool {
    let n = rel.from_columns@.len();
    &&& rel.to_columns@.len() == n
    &&& j.on.len() == n
    &&& {
        ||| j.left == rel.from@ && j.right == rel.to@ && forall|i: int|
            0 <= i < n ==> (#[trigger] j.on[i]).left_dataset == rel.from@ && j.on[i].left_sql
                == rel.from_columns@[i]@ && j.on[i].right_dataset == rel.to@ && j.on[i].right_sql
                == rel.to_columns@[i]@
        ||| j.left == rel.to@ && j.right == rel.from@ && forall|i: int|
            0 <= i < n ==> (#[trigger] j.on[i]).left_dataset == rel.to@ && j.on[i].left_sql
                == rel.to_columns@[i]@ && j.on[i].right_dataset == rel.from@ && j.on[i].right_sql
                == rel.from_columns@[i]@
    }
}

/// Every join of a successful binding follows a relationship of the model: the left side of
/// each key is the left dataset's column as the relationship lists it for that dataset, the
/// right side the right dataset's, pair by pair.
pub proof fn law_join_keys_follow_relationships(doc: OsiDocument, model_name: Seq<char>, q: SemanticQuery)
    requires
        spec_bind(doc, model_name, q) is Ok,
    ensures
        forall|k: int|
            0 <= k < spec_bind(doc, model_name, q)->Ok_0.joins.len() ==> exists|r: int|
                0 <= r < doc.semantic_model@[first_match(doc.semantic_model@, model_named(model_name))].relationships@.len()
                    && keys_follow(
                    #[trigger] spec_bind(doc, model_name, q)->Ok_0.joins[k],
                    doc.semantic_model@[first_match(doc.semantic_model@, model_named(model_name))].relationships@[r],
                ),
{
    law_bind_joins(doc, model_name, q);
    let b = spec_bind(doc, model_name, q)->Ok_0;
    let rels = doc.semantic_model@[first_match(doc.semantic_model@, model_named(model_name))].relationships@;
    assert forall|k: int| 0 <= k < b.joins.len() implies exists|r: int|
        0 <= r < rels.len() && keys_follow(#[trigger] b.joins[k], rels[r]) by {
        let j = b.joins[k];
        let r = choose|r: int| 0 <= r < rels.len() && spec_join_keys(j.left, j.right, rels[r]) == Some(j.on);
        let rel = rels[r];
        assert(keys_follow(j, rel));
    }
}

} // verus!
