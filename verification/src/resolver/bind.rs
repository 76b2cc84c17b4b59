//! Bind a query to a semantic model of a document.

use vstd::prelude::*;

use crate::json::{JsonV, JsonValue};
use crate::model::{Dataset, Field, Metric, OsiDocument, Relationship, SemanticModel};
use crate::query::{FilterSpec, SemanticQuery};
use crate::plan::expr::{JoinKey, JoinKeyV};
use crate::plan::join_keys_view;
use crate::resolver::error::{QueryError, QueryErrorV};
use crate::seqs::{
    first_match, last_match, lemma_filter_len_mono, lemma_first_match, lemma_first_match_at,
    lemma_first_match_none, lemma_last_match, lemma_last_match_at,
};
use crate::text::{char_index, has_char, is_char, push_char, push_str, split_once_char};
use crate::text::{str_eq, strings_view};

verus! {

/// One INNER JOIN step (left-deep): `left_dataset` is already in the tree, `right_dataset` joins it.
pub struct BoundJoin {
    pub left_dataset: String,
    pub right_dataset: String,
    /// Equi-join keys for `ON`.
    pub on: Vec<JoinKey>,
}

pub struct BoundJoinV {
    pub left: Seq<char>,
    pub right: Seq<char>,
    pub on: Seq<JoinKeyV>,
}

impl View for BoundJoin {
    type V = BoundJoinV;

    open spec fn view(&self) -> BoundJoinV {
        BoundJoinV { left: self.left_dataset@, right: self.right_dataset@, on: join_keys_view(self.on@) }
    }
}

pub open spec fn joins_view(s: Seq<BoundJoin>) -> Seq<BoundJoinV> {
    Seq::new(s.len(), |i: int| s[i]@)
}

/// Whether `s` occurs in `v`.
pub fn contains_name(v: &Vec<String>, s: &str) -> (res: bool)
    ensures
        res == strings_view(v@).contains(s@),
{
    let ghost vv = strings_view(v@);
    let mut i: usize = 0;
    while i < v.len()
        invariant
            vv == strings_view(v@),
            i <= v.len(),
            forall|j: int| 0 <= j < i ==> vv[j] != s@,
        decreases v.len() - i,
    {
        if str_eq(v[i].as_str(), s) {
            proof {
                assert(vv[i as int] == s@);
            }
            return true;
        }
        i = i + 1;
    }
    false
}

/// The equi-join keys of `rel` read from `left` to `right` (either direction of the relationship);
/// none when the relationship does not connect them or its column lists differ in length.
pub open spec fn spec_join_keys(left: Seq<char>, right: Seq<char>, rel: Relationship) -> Option<Seq<JoinKeyV>> {
    let n = rel.from_columns@.len();
    if left == rel.from@ && right == rel.to@ {
        if n != rel.to_columns@.len() {
            None
        } else {
            Some(
                Seq::new(
                    n,
                    |i: int|
                        JoinKeyV {
                            left_dataset: left,
                            left_sql: rel.from_columns@[i]@,
                            right_dataset: right,
                            right_sql: rel.to_columns@[i]@,
                        },
                ),
            )
        }
    } else if left == rel.to@ && right == rel.from@ {
        if n != rel.to_columns@.len() {
            None
        } else {
            Some(
                Seq::new(
                    n,
                    |i: int|
                        JoinKeyV {
                            left_dataset: left,
                            left_sql: rel.to_columns@[i]@,
                            right_dataset: right,
                            right_sql: rel.from_columns@[i]@,
                        },
                ),
            )
        }
    } else {
        None
    }
}

fn join_keys(left: &str, right: &str, rel: &Relationship) -> (res: Option<Vec<JoinKey>>)
    ensures
        match spec_join_keys(left@, right@, *rel) {
            None => res is None,
            Some(k) => res matches Some(v) && join_keys_view(v@) == k,
        },
{
    let forward = str_eq(left, rel.from.as_str()) && str_eq(right, rel.to.as_str());
    let backward = str_eq(left, rel.to.as_str()) && str_eq(right, rel.from.as_str());
    if !forward && !backward {
        return None;
    }
    if rel.from_columns.len() != rel.to_columns.len() {
        return None;
    }
    let mut keys: Vec<JoinKey> = Vec::new();
    let mut i: usize = 0;
    while i < rel.from_columns.len()
        invariant
            i <= rel.from_columns@.len(),
            rel.from_columns@.len() == rel.to_columns@.len(),
            keys@.len() == i,
            forall|j: int|
                0 <= j < i ==> (#[trigger] keys@[j])@ == (if forward {
                    JoinKeyV {
                        left_dataset: left@,
                        left_sql: rel.from_columns@[j]@,
                        right_dataset: right@,
                        right_sql: rel.to_columns@[j]@,
                    }
                } else {
                    JoinKeyV {
                        left_dataset: left@,
                        left_sql: rel.to_columns@[j]@,
                        right_dataset: right@,
                        right_sql: rel.from_columns@[j]@,
                    }
                }),
        decreases rel.from_columns@.len() - i,
    {
        let (l, r) = if forward {
            (rel.from_columns[i].clone(), rel.to_columns[i].clone())
        } else {
            (rel.to_columns[i].clone(), rel.from_columns[i].clone())
        };
        keys.push(
            JoinKey {
                left_dataset: String::from_str(left),
                left_sql: l,
                right_dataset: String::from_str(right),
                right_sql: r,
            },
        );
        i = i + 1;
    }
    proof {
        let k = spec_join_keys(left@, right@, *rel)->0;
        assert(join_keys_view(keys@) =~= k);
    }
    Some(keys)
}

/// The predicate "is not in `inc`".
pub open spec fn not_in(inc: Seq<Seq<char>>) -> spec_fn(Seq<char>) -> bool {
    |r: Seq<char>| !inc.contains(r)
}

/// The required datasets not yet joined, in order.
pub open spec fn missing(req: Seq<Seq<char>>, inc: Seq<Seq<char>>) -> Seq<Seq<char>> {
    req.filter(not_in(inc))
}

/// The join step that `rel` offers: from an included dataset to a required one not yet included,
/// in the relationship's direction first.
pub open spec fn rel_step(rel: Relationship, req: Seq<Seq<char>>, inc: Seq<Seq<char>>) -> Option<BoundJoinV> {
    let a = rel.from@;
    let b = rel.to@;
    if inc.contains(a) && req.contains(b) && !inc.contains(b) && spec_join_keys(a, b, rel) is Some {
        Some(BoundJoinV { left: a, right: b, on: spec_join_keys(a, b, rel)->0 })
    } else if inc.contains(b) && req.contains(a) && !inc.contains(a) && spec_join_keys(b, a, rel) is Some {
        Some(BoundJoinV { left: b, right: a, on: spec_join_keys(b, a, rel)->0 })
    } else {
        None
    }
}

/// The predicate "offers a join step".
pub open spec fn offers_step(req: Seq<Seq<char>>, inc: Seq<Seq<char>>) -> spec_fn(Relationship) -> bool {
    |rel: Relationship| rel_step(rel, req, inc) is Some
}

/// The next join: the step offered by the first relationship that offers one.
pub open spec fn next_step(rels: Seq<Relationship>, req: Seq<Seq<char>>, inc: Seq<Seq<char>>) -> Option<BoundJoinV> {
    let i = first_match(rels, offers_step(req, inc));
    if i < 0 {
        None
    } else {
        rel_step(rels[i], req, inc)
    }
}

pub proof fn lemma_step_shrinks(rels: Seq<Relationship>, req: Seq<Seq<char>>, inc: Seq<Seq<char>>)
    requires
        next_step(rels, req, inc) is Some,
    ensures
        req.contains(next_step(rels, req, inc)->0.right),
        !inc.contains(next_step(rels, req, inc)->0.right),
        inc.contains(next_step(rels, req, inc)->0.left),
        missing(req, inc.push(next_step(rels, req, inc)->0.right)).len() < missing(req, inc).len(),
{
    let r = next_step(rels, req, inc)->0.right;
    let k = req.index_of(r);
    let p = not_in(inc);
    let q = not_in(inc.push(r));
    assert forall|x: Seq<char>| #[trigger] q(x) implies p(x) by {
        if inc.contains(x) {
            let w = choose|w: int| 0 <= w < inc.len() && inc[w] == x;
            assert(inc.push(r)[w] == x);
        }
    }
    assert(inc.push(r)[inc.len() as int] == r);
    lemma_filter_len_mono(req, p, q, k);
}

/// The joins that grow the tree from `inc` until every required dataset is in it, each time
/// taking [`next_step`]; when no relationship offers a step, the datasets still missing.
pub open spec fn spec_join_order(rels: Seq<Relationship>, req: Seq<Seq<char>>, inc: Seq<Seq<char>>) -> Result<Seq<BoundJoinV>, Seq<Seq<char>>>
    decreases missing(req, inc).len(),
{
    if missing(req, inc).len() == 0 {
        Ok(Seq::empty())
    } else {
        match next_step(rels, req, inc) {
            None => Err(missing(req, inc)),
            Some(j) => {
                proof {
                    lemma_step_shrinks(rels, req, inc);
                }
                match spec_join_order(rels, req, inc.push(j.right)) {
                    Ok(rest) => Ok(seq![j] + rest),
                    Err(m) => Err(m),
                }
            },
        }
    }
}

fn missing_names(required: &Vec<String>, included: &Vec<String>) -> (res: Vec<String>)
    ensures
        strings_view(res@) == missing(strings_view(required@), strings_view(included@)),
{
    let ghost req = strings_view(required@);
    let ghost p = not_in(strings_view(included@));
    let mut out: Vec<String> = Vec::new();
    let mut i: usize = 0;
    while i < required.len()
        invariant
            req == strings_view(required@),
            p == not_in(strings_view(included@)),
            i <= required.len(),
            strings_view(out@) == req.take(i as int).filter(p),
        decreases required.len() - i,
    {
        proof {
            crate::seqs::lemma_filter_step(req, p, i as int);
        }
        if !contains_name(included, required[i].as_str()) {
            let ghost before = out@;
            out.push(required[i].clone());
            proof {
                assert(strings_view(out@) =~= strings_view(before).push(req[i as int]));
            }
        }
        i = i + 1;
    }
    proof {
        crate::seqs::lemma_take_all(req);
    }
    out
}

fn rel_step_exec(rel: &Relationship, required: &Vec<String>, included: &Vec<String>) -> (res: Option<BoundJoin>)
    ensures
        match rel_step(*rel, strings_view(required@), strings_view(included@)) {
            None => res is None,
            Some(j) => res matches Some(b) && b@ == j,
        },
{
    let a = rel.from.as_str();
    let b = rel.to.as_str();
    if contains_name(included, a) && contains_name(required, b) && !contains_name(included, b) {
        if let Some(on) = join_keys(a, b, rel) {
            return Some(BoundJoin { left_dataset: String::from_str(a), right_dataset: String::from_str(b), on });
        }
    }
    if contains_name(included, b) && contains_name(required, a) && !contains_name(included, a) {
        if let Some(on) = join_keys(b, a, rel) {
            return Some(BoundJoin { left_dataset: String::from_str(b), right_dataset: String::from_str(a), on });
        }
    }
    None
}

fn find_step(rels: &Vec<Relationship>, required: &Vec<String>, included: &Vec<String>) -> (res: Option<BoundJoin>)
    ensures
        match next_step(rels@, strings_view(required@), strings_view(included@)) {
            None => res is None,
            Some(j) => res matches Some(b) && b@ == j,
        },
{
    let ghost p = offers_step(strings_view(required@), strings_view(included@));
    let mut i: usize = 0;
    while i < rels.len()
        invariant
            p == offers_step(strings_view(required@), strings_view(included@)),
            i <= rels.len(),
            forall|j: int| 0 <= j < i ==> !p(#[trigger] rels@[j]),
        decreases rels.len() - i,
    {
        let step = rel_step_exec(&rels[i], required, included);
        if step.is_some() {
            proof {
                lemma_first_match_at(rels@, p, i as int);
            }
            return step;
        }
        i = i + 1;
    }
    proof {
        lemma_first_match_none(rels@, p);
    }
    None
}

/// Grows the join tree from `root` until `required` is covered (Prim-style).
fn build_join_order(model: &SemanticModel, required: &Vec<String>, root: &str) -> (res: Result<Vec<BoundJoin>, QueryError>)
    ensures
        match spec_join_order(model.relationships@, strings_view(required@), seq![root@]) {
            Ok(js) => res matches Ok(v) && joins_view(v@) == js,
            Err(m) => res matches Err(e) && e@ == QueryErrorV::DisconnectedDatasets(m),
        },
{
    let ghost rels = model.relationships@;
    let ghost req = strings_view(required@);
    let mut included: Vec<String> = Vec::new();
    included.push(String::from_str(root));
    let mut joins: Vec<BoundJoin> = Vec::new();
    proof {
        assert(strings_view(included@) =~= seq![root@]);
    }
    loop
        invariant
            rels == model.relationships@,
            req == strings_view(required@),
            spec_join_order(rels, req, seq![root@]) == match spec_join_order(rels, req, strings_view(included@)) {
                Ok(rest) => Ok(joins_view(joins@) + rest),
                Err(m) => Err(m),
            },
        decreases missing(req, strings_view(included@)).len(),
    {
        let ghost inc = strings_view(included@);
        let miss = missing_names(required, &included);
        if miss.len() == 0 {
            proof {
                assert(joins_view(joins@) + Seq::<BoundJoinV>::empty() == joins_view(joins@));
            }
            return Ok(joins);
        }
        match find_step(&model.relationships, required, &included) {
            None => {
                return Err(QueryError::DisconnectedDatasets(miss));
            },
            Some(step) => {
                proof {
                    lemma_step_shrinks(rels, req, inc);
                }
                let ghost j = step@;
                let ghost before = joins@;
                included.push(step.right_dataset.clone());
                joins.push(step);
                proof {
                    assert(strings_view(included@) =~= inc.push(j.right));
                    assert(joins_view(joins@) =~= joins_view(before).push(j));
                    match spec_join_order(rels, req, inc.push(j.right)) {
                        Ok(rest) => {
                            assert(joins_view(before) + (seq![j] + rest) =~= joins_view(joins@) + rest);
                        },
                        Err(m) => {},
                    }
                }
            },
        }
    }
}

/// Field resolved with its logical dataset.
pub struct ResolvedField<'a> {
    pub dataset: String,
    pub field: &'a Field,
}

/// Filter with a resolved field.
pub struct BoundFilter<'a> {
    pub field: ResolvedField<'a>,
    pub operator: String,
    pub value: JsonValue,
    /// The field on the right of an `eq_field` / `eq_column` filter.
    pub rhs_field: Option<ResolvedField<'a>>,
}

/// Fully bound query: one or more logical datasets joined by relationships.
pub struct BoundQuery<'a> {
    pub model_name: String,
    /// Anchor scan / join root.
    pub root_dataset: String,
    /// Logical dataset name and physical `source`, for every table in the join; no name twice.
    pub sources: Vec<(String, String)>,
    /// Ordered INNER JOINs after the root scan.
    pub joins: Vec<BoundJoin>,
    pub group_by: Vec<ResolvedField<'a>>,
    pub metrics: Vec<&'a Metric>,
    pub filters: Vec<BoundFilter<'a>>,
}

impl<'a> BoundQuery<'a> {
    /// The physical source of the logical dataset `name`, if it takes part in the query.
    pub fn source_of(&self, name: &str) -> (res: Option<&String>)
        ensures
            match res {
                Some(s) => source_index(self@.sources, name@) >= 0 && self@.sources[source_index(
                    self@.sources,
                    name@,
                )].1 == s@,
                None => source_index(self@.sources, name@) < 0,
            },
    {
        let ghost p = source_named(name@);
        let ghost sv = self@.sources;
        let mut i: usize = 0;
        while i < self.sources.len()
            invariant
                p == source_named(name@),
                sv == self@.sources,
                i <= self.sources@.len(),
                forall|j: int| 0 <= j < i ==> !p(#[trigger] sv[j]),
            decreases self.sources@.len() - i,
        {
            if str_eq(self.sources[i].0.as_str(), name) {
                proof {
                    lemma_first_match_at(sv, p, i as int);
                }
                return Some(&self.sources[i].1);
            }
            i = i + 1;
        }
        proof {
            crate::seqs::lemma_first_match_none(sv, p);
        }
        None
    }
}

/// The predicate "is the source entry of `name`".
pub open spec fn source_named(name: Seq<char>) -> spec_fn((Seq<char>, Seq<char>)) -> bool {
    |e: (Seq<char>, Seq<char>)| e.0 == name
}

/// Where the source of `name` stands among the query's sources, or -1.
pub open spec fn source_index(sources: Seq<(Seq<char>, Seq<char>)>, name: Seq<char>) -> int {
    first_match(sources, source_named(name))
}

/// A `dataset.field` reference: exactly one `.`, with text on both sides.
pub open spec fn spec_field_ref(p: Seq<char>) -> Option<(Seq<char>, Seq<char>)> {
    let i = char_index(p, '.');
    if i < 0 {
        None
    } else {
        let a = p.subrange(0, i);
        let b = p.subrange(i + 1, p.len() as int);
        if a.len() == 0 || b.len() == 0 || has_char(b, '.') {
            None
        } else {
            Some((a, b))
        }
    }
}

fn parse_field_ref(s: &str) -> (res: Result<(&str, &str), QueryError>)
    ensures
        match spec_field_ref(s@) {
            Some((a, b)) => res matches Ok((x, y)) && x@ == a && y@ == b,
            None => res matches Err(e) && e@ == QueryErrorV::InvalidFieldRef(s@),
        },
{
    proof {
        lemma_first_match(s@, is_char('.'));
    }
    match split_once_char(s, '.') {
        Some((a, b)) => {
            if a.unicode_len() == 0 || b.unicode_len() == 0 || crate::text::contains_char(b, '.') {
                Err(QueryError::InvalidFieldRef(String::from_str(s)))
            } else {
                Ok((a, b))
            }
        },
        None => Err(QueryError::InvalidFieldRef(String::from_str(s))),
    }
}

/// Whether a filter compares its field with another field.
pub open spec fn is_field_comparison(f: FilterSpec) -> bool {
    filter_operator(f) == "eq_field"@ || filter_operator(f) == "eq_column"@
}

/// The field reference on the right of a filter: the string value of an `eq_field` /
/// `eq_column` filter.
pub open spec fn rhs_ref(f: FilterSpec) -> Option<Seq<char>> {
    if is_field_comparison(f) {
        match f.value@ {
            JsonV::String(s) => Some(s),
            _ => None,
        }
    } else {
        None
    }
}

/// The right-hand field references of filters, in order.
pub open spec fn rhs_paths(fs: Seq<FilterSpec>) -> Seq<Seq<char>>
    decreases fs.len(),
{
    if fs.len() == 0 {
        Seq::empty()
    } else {
        match rhs_ref(fs.last()) {
            Some(r) => rhs_paths(fs.drop_last()).push(r),
            None => rhs_paths(fs.drop_last()),
        }
    }
}

/// The right-hand references of a prefix of the filters are a prefix of all of them.
pub proof fn lemma_rhs_paths_prefix(fs: Seq<FilterSpec>, k: int)
    requires
        0 <= k <= fs.len(),
    ensures
        rhs_paths(fs.take(k)).len() <= rhs_paths(fs).len(),
        forall|j: int|
            0 <= j < rhs_paths(fs.take(k)).len() ==> #[trigger] rhs_paths(fs.take(k))[j] == rhs_paths(fs)[j],
    decreases fs.len(),
{
    if k == fs.len() {
        assert(fs.take(k) =~= fs);
    } else {
        lemma_rhs_paths_prefix(fs.drop_last(), k);
        assert(fs.drop_last().take(k) =~= fs.take(k));
    }
}

/// The field references of a query: group-by fields, filter fields, then the right-hand fields
/// of field comparisons.
pub open spec fn query_paths(q: SemanticQuery) -> Seq<Seq<char>> {
    strings_view(q.group_by@) + Seq::new(q.filters@.len(), |i: int| q.filters@[i].field@) + rhs_paths(
        q.filters@,
    )
}

/// `s` without repeats, keeping first occurrences in order.
pub open spec fn dedup(s: Seq<Seq<char>>) -> Seq<Seq<char>>
    decreases s.len(),
{
    if s.len() == 0 {
        Seq::empty()
    } else if dedup(s.drop_last()).contains(s.last()) {
        dedup(s.drop_last())
    } else {
        dedup(s.drop_last()).push(s.last())
    }
}

/// The datasets named by valid field references, once each, in order of first mention.
pub open spec fn path_datasets(paths: Seq<Seq<char>>) -> Seq<Seq<char>> {
    dedup(Seq::new(paths.len(), |i: int| (spec_field_ref(paths[i])->0).0))
}

/// The predicate "is not a valid field reference".
pub open spec fn bad_ref() -> spec_fn(Seq<char>) -> bool {
    |p: Seq<char>| spec_field_ref(p) is None
}

/// The join root: the query's `dataset` when given; otherwise the only referenced dataset.
pub open spec fn spec_root(q: SemanticQuery, pds: Seq<Seq<char>>) -> Result<Seq<char>, QueryErrorV> {
    if pds.len() == 0 {
        if q.metrics@.len() == 0 {
            Err(QueryErrorV::EmptyQuery)
        } else {
            match q.dataset {
                Some(d) => Ok(d@),
                None => Err(QueryErrorV::MissingBaseDataset),
            }
        }
    } else if pds.len() == 1 {
        match q.dataset {
            Some(d) => Ok(d@),
            None => Ok(pds[0]),
        }
    } else {
        match q.dataset {
            Some(d) => Ok(d@),
            None => Err(QueryErrorV::MissingRootDataset),
        }
    }
}

/// The datasets a query needs: the referenced ones, then the root when it is not among them.
pub open spec fn required_datasets(pds: Seq<Seq<char>>, root: Seq<char>) -> Seq<Seq<char>> {
    if pds.contains(root) {
        pds
    } else {
        pds.push(root)
    }
}

/// The predicate "is the dataset named `n`".
pub open spec fn dataset_named(n: Seq<char>) -> spec_fn(Dataset) -> bool {
    |d: Dataset| d.name@ == n
}

/// The dataset a name stands for: the last one of that name (a later definition wins).
pub open spec fn dataset_index(m: SemanticModel, n: Seq<char>) -> int {
    last_match(m.datasets@, dataset_named(n))
}

/// The predicate "names no dataset of `m`".
pub open spec fn unknown_dataset(m: SemanticModel) -> spec_fn(Seq<char>) -> bool {
    |n: Seq<char>| dataset_index(m, n) < 0
}

/// The predicate "is the field named `n`".
pub open spec fn field_named(n: Seq<char>) -> spec_fn(Field) -> bool {
    |f: Field| f.name@ == n
}

/// A valid field reference resolved in `m`: its dataset and the first field of that name.
pub open spec fn spec_resolve(m: SemanticModel, p: Seq<char>) -> Result<(Seq<char>, Field), QueryErrorV> {
    let (ds, f) = spec_field_ref(p)->0;
    let di = dataset_index(m, ds);
    if di < 0 {
        Err(QueryErrorV::DatasetNotFound(ds))
    } else {
        let fields = m.datasets@[di].fields@;
        let fi = first_match(fields, field_named(f));
        if fi < 0 {
            Err(QueryErrorV::FieldNotFound(ds + seq!['.'] + f))
        } else {
            Ok((ds, fields[fi]))
        }
    }
}

/// The predicate "does not resolve in `m`".
pub open spec fn unresolved(m: SemanticModel) -> spec_fn(Seq<char>) -> bool {
    |p: Seq<char>| spec_resolve(m, p) is Err
}

/// The predicate "is the metric named `n`".
pub open spec fn metric_named(n: Seq<char>) -> spec_fn(Metric) -> bool {
    |x: Metric| x.name@ == n
}

/// The predicate "names no metric of `m`".
pub open spec fn unknown_metric(m: SemanticModel) -> spec_fn(Seq<char>) -> bool {
    |n: Seq<char>| first_match(m.metrics@, metric_named(n)) < 0
}

/// The predicate "is the model named `n`".
pub open spec fn model_named(n: Seq<char>) -> spec_fn(SemanticModel) -> bool {
    |x: SemanticModel| x.name@ == n
}

/// The operator of a filter: the one given, else `in` for an array value and `eq` otherwise.
pub open spec fn filter_operator(f: FilterSpec) -> Seq<char> {
    match f.operator {
        Some(o) => o@,
        None => if f.value@ is Array {
            "in"@
        } else {
            "eq"@
        },
    }
}

pub struct BoundQueryV {
    pub model_name: Seq<char>,
    pub root: Seq<char>,
    pub sources: Seq<(Seq<char>, Seq<char>)>,
    pub joins: Seq<BoundJoinV>,
    pub group_by: Seq<(Seq<char>, Field)>,
    pub metrics: Seq<Metric>,
    pub filters: Seq<(Seq<char>, Field, Seq<char>, JsonV, Option<(Seq<char>, Field)>)>,
}

impl<'a> View for BoundQuery<'a> {
    type V = BoundQueryV;

    open spec fn view(&self) -> BoundQueryV {
        BoundQueryV {
            model_name: self.model_name@,
            root: self.root_dataset@,
            sources: Seq::new(self.sources@.len(), |i: int| (self.sources@[i].0@, self.sources@[i].1@)),
            joins: joins_view(self.joins@),
            group_by: Seq::new(self.group_by@.len(), |i: int| (self.group_by@[i].dataset@, *self.group_by@[i].field)),
            metrics: Seq::new(self.metrics@.len(), |i: int| *self.metrics@[i]),
            filters: filters_view(self.filters@),
        }
    }
}

proof fn lemma_path_datasets_prefix(paths: Seq<Seq<char>>, i: int)
    requires
        0 <= i < paths.len(),
    ensures
        path_datasets(paths.take(i + 1)) == if path_datasets(paths.take(i)).contains(
            (spec_field_ref(paths[i])->0).0,
        ) {
            path_datasets(paths.take(i))
        } else {
            path_datasets(paths.take(i)).push((spec_field_ref(paths[i])->0).0)
        },
{
    let a = Seq::new(paths.take(i + 1).len(), |k: int| (spec_field_ref(paths.take(i + 1)[k])->0).0);
    let b = Seq::new(paths.take(i).len(), |k: int| (spec_field_ref(paths.take(i)[k])->0).0);
    assert(a.drop_last() =~= b);
    assert(a.last() == (spec_field_ref(paths[i])->0).0);
}

/// Finds the dataset a name stands for (the last one of that name).
fn find_dataset(model: &SemanticModel, name: &str) -> (res: Option<usize>)
    ensures
        match res {
            Some(i) => i == dataset_index(*model, name@) && i < model.datasets@.len(),
            None => dataset_index(*model, name@) < 0,
        },
{
    let ghost p = dataset_named(name@);
    let mut i: usize = model.datasets.len();
    while i > 0
        invariant
            p == dataset_named(name@),
            i <= model.datasets@.len(),
            forall|j: int| i <= j < model.datasets@.len() ==> !p(#[trigger] model.datasets@[j]),
        decreases i,
    {
        if str_eq(model.datasets[i - 1].name.as_str(), name) {
            proof {
                lemma_last_match_at(model.datasets@, p, i - 1);
            }
            return Some(i - 1);
        }
        i = i - 1;
    }
    proof {
        lemma_last_match(model.datasets@, p);
    }
    None
}

fn find_field<'a>(ds: &'a Dataset, name: &str) -> (res: Option<&'a Field>)
    ensures
        match res {
            Some(f) => first_match(ds.fields@, field_named(name@)) >= 0 && *f == ds.fields@[first_match(
                ds.fields@,
                field_named(name@),
            )],
            None => first_match(ds.fields@, field_named(name@)) < 0,
        },
{
    let ghost p = field_named(name@);
    let mut i: usize = 0;
    while i < ds.fields.len()
        invariant
            p == field_named(name@),
            i <= ds.fields@.len(),
            forall|j: int| 0 <= j < i ==> !p(#[trigger] ds.fields@[j]),
        decreases ds.fields@.len() - i,
    {
        if str_eq(ds.fields[i].name.as_str(), name) {
            proof {
                lemma_first_match_at(ds.fields@, p, i as int);
            }
            return Some(&ds.fields[i]);
        }
        i = i + 1;
    }
    proof {
        lemma_first_match_none(ds.fields@, p);
    }
    None
}

fn find_metric<'a>(model: &'a SemanticModel, name: &str) -> (res: Option<&'a Metric>)
    ensures
        match res {
            Some(x) => first_match(model.metrics@, metric_named(name@)) >= 0 && *x == model.metrics@[first_match(
                model.metrics@,
                metric_named(name@),
            )],
            None => first_match(model.metrics@, metric_named(name@)) < 0,
        },
{
    let ghost p = metric_named(name@);
    let mut i: usize = 0;
    while i < model.metrics.len()
        invariant
            p == metric_named(name@),
            i <= model.metrics@.len(),
            forall|j: int| 0 <= j < i ==> !p(#[trigger] model.metrics@[j]),
        decreases model.metrics@.len() - i,
    {
        if str_eq(model.metrics[i].name.as_str(), name) {
            proof {
                lemma_first_match_at(model.metrics@, p, i as int);
            }
            return Some(&model.metrics[i]);
        }
        i = i + 1;
    }
    proof {
        lemma_first_match_none(model.metrics@, p);
    }
    None
}

/// Resolves a valid field reference in `model`.
fn resolve_path<'a>(model: &'a SemanticModel, path: &str) -> (res: Result<ResolvedField<'a>, QueryError>)
    requires
        spec_field_ref(path@) is Some,
    ensures
        match spec_resolve(*model, path@) {
            Ok((d, f)) => res matches Ok(r) && r.dataset@ == d && *r.field == f,
            Err(e) => res matches Err(x) && x@ == e,
        },
{
    let (ds_name, field_name) = match parse_field_ref(path) {
        Ok(x) => x,
        Err(e) => {
            return Err(e);
        },
    };
    let di = match find_dataset(model, ds_name) {
        Some(i) => i,
        None => {
            return Err(QueryError::DatasetNotFound(String::from_str(ds_name)));
        },
    };
    match find_field(&model.datasets[di], field_name) {
        Some(f) => Ok(ResolvedField { dataset: String::from_str(ds_name), field: f }),
        None => {
            let mut msg = String::from_str(ds_name);
            push_char(&mut msg, '.');
            push_str(&mut msg, field_name);
            proof {
                assert(msg@ =~= ds_name@ + seq!['.'] + field_name@);
            }
            Err(QueryError::FieldNotFound(msg))
        },
    }
}

/// The binding of a query to the semantic model named `model_name` of `doc`; errors in this
/// order: unknown model, invalid field reference, no root, unknown dataset, unknown field (group-by
/// fields, filter fields, then right-hand fields of field comparisons), unknown metric, datasets
/// not connected by relationships.
pub open spec fn spec_bind(doc: OsiDocument, model_name: Seq<char>, q: SemanticQuery) -> Result<BoundQueryV, QueryErrorV> {
    let mi = first_match(doc.semantic_model@, model_named(model_name));
    if model_name.len() == 0 {
        Err(QueryErrorV::ModelNotFound(Seq::empty()))
    } else if mi < 0 {
        Err(QueryErrorV::ModelNotFound(model_name))
    } else {
        let m = doc.semantic_model@[mi];
        let paths = query_paths(q);
        let bi = first_match(paths, bad_ref());
        if bi >= 0 {
            Err(QueryErrorV::InvalidFieldRef(paths[bi]))
        } else {
            let pds = path_datasets(paths);
            match spec_root(q, pds) {
                Err(e) => Err(e),
                Ok(root) => {
                    let req = required_datasets(pds, root);
                    let ui = first_match(req, unknown_dataset(m));
                    let gb = strings_view(q.group_by@);
                    let fl = filter_fields(q.filters@);
                    let gi = first_match(gb, unresolved(m));
                    let fi = first_match(fl, unresolved(m));
                    let rl = rhs_paths(q.filters@);
                    let ri = first_match(rl, unresolved(m));
                    let mets = strings_view(q.metrics@);
                    let xi = first_match(mets, unknown_metric(m));
                    if ui >= 0 {
                        Err(QueryErrorV::DatasetNotFound(req[ui]))
                    } else if gi >= 0 {
                        Err(spec_resolve(m, gb[gi])->Err_0)
                    } else if fi >= 0 {
                        Err(spec_resolve(m, fl[fi])->Err_0)
                    } else if ri >= 0 {
                        Err(spec_resolve(m, rl[ri])->Err_0)
                    } else if xi >= 0 {
                        Err(QueryErrorV::MetricNotFound(mets[xi]))
                    } else {
                        let joins = if req.len() <= 1 {
                            Ok(Seq::empty())
                        } else {
                            spec_join_order(m.relationships@, req, seq![root])
                        };
                        match joins {
                            Err(missing) => Err(QueryErrorV::DisconnectedDatasets(missing)),
                            Ok(js) => Ok(
                                BoundQueryV {
                                    model_name: m.name@,
                                    root,
                                    sources: Seq::new(
                                        req.len(),
                                        |i: int| (req[i], m.datasets@[dataset_index(m, req[i])].source@),
                                    ),
                                    joins: js,
                                    group_by: Seq::new(gb.len(), |i: int| spec_resolve(m, gb[i])->Ok_0),
                                    metrics: Seq::new(
                                        mets.len(),
                                        |i: int| m.metrics@[first_match(m.metrics@, metric_named(mets[i]))],
                                    ),
                                    filters: spec_filters(m, q.filters@),
                                },
                            ),
                        }
                    }
                },
            }
        }
    }
}

/// The operator of a filter (`in` for an array value and `eq` otherwise when none is given).
fn operator_of(f: &FilterSpec) -> (res: &str)
    ensures
        res@ == filter_operator(*f),
{
    match &f.operator {
        Some(o) => o.as_str(),
        None => if f.value.is_array() {
            "in"
        } else {
            "eq"
        },
    }
}

/// The field reference on the right of a filter that compares two fields.
fn rhs_text(f: &FilterSpec) -> (res: Option<&str>)
    ensures
        match res {
            Some(r) => rhs_ref(*f) == Some(r@),
            None => rhs_ref(*f) is None,
        },
{
    let op = operator_of(f);
    if str_eq(op, "eq_field") || str_eq(op, "eq_column") {
        f.value.as_str()
    } else {
        None
    }
}

/// The field references of a query, in order.
#[verifier::loop_isolation(false)]
fn collect_paths(spec: &SemanticQuery) -> (paths: Vec<String>)
    ensures
        strings_view(paths@) == query_paths(*spec),
{
    let mut paths: Vec<String> = Vec::new();
    let mut k: usize = 0;
    while k < spec.group_by.len()
        invariant
            k <= spec.group_by@.len(),
            strings_view(paths@) == strings_view(spec.group_by@).take(k as int),
        decreases spec.group_by@.len() - k,
    {
        let ghost before = paths@;
        paths.push(spec.group_by[k].clone());
        proof {
            assert(strings_view(paths@) =~= strings_view(spec.group_by@).take(k + 1));
        }
        k = k + 1;
    }
    let mut k: usize = 0;
    while k < spec.filters.len()
        invariant
            k <= spec.filters@.len(),
            strings_view(paths@) == strings_view(spec.group_by@) + Seq::new(
                spec.filters@.len(),
                |i: int| spec.filters@[i].field@,
            ).take(k as int),
        decreases spec.filters@.len() - k,
    {
        let ghost before = paths@;
        paths.push(spec.filters[k].field.clone());
        proof {
            let fs = Seq::new(spec.filters@.len(), |i: int| spec.filters@[i].field@);
            assert(strings_view(paths@) =~= strings_view(before).push(spec.filters@[k as int].field@));
            assert(fs.take(k + 1) =~= fs.take(k as int).push(fs[k as int]));
            assert(strings_view(paths@) =~= strings_view(spec.group_by@) + Seq::new(
                spec.filters@.len(),
                |i: int| spec.filters@[i].field@,
            ).take(k + 1));
        }
        k = k + 1;
    }
    let ghost base = strings_view(paths@);
    let mut k: usize = 0;
    while k < spec.filters.len()
        invariant
            k <= spec.filters@.len(),
            strings_view(paths@) == base + rhs_paths(spec.filters@.take(k as int)),
        decreases spec.filters@.len() - k,
    {
        let ghost before = paths@;
        proof {
            assert(spec.filters@.take(k + 1).drop_last() =~= spec.filters@.take(k as int));
        }
        if let Some(r) = rhs_text(&spec.filters[k]) {
            paths.push(String::from_str(r));
            proof {
                assert(strings_view(paths@) =~= strings_view(before).push(r@));
            }
        }
        k = k + 1;
    }
    proof {
        assert(spec.filters@.take(spec.filters@.len() as int) =~= spec.filters@);
        assert(strings_view(paths@) =~= query_paths(*spec));
    }
    paths
}

/// The views of bound filters: field, operator, value and right-hand field.
pub open spec fn filters_view(v: Seq<BoundFilter>) -> Seq<(Seq<char>, Field, Seq<char>, JsonV, Option<(Seq<char>, Field)>)> {
    Seq::new(
        v.len(),
        |i: int|
            (
                v[i].field.dataset@,
                *v[i].field.field,
                v[i].operator@,
                v[i].value@,
                match v[i].rhs_field {
                    Some(r) => Some((r.dataset@, *r.field)),
                    None => None,
                },
            ),
    )
}

/// Filters bound in `m`: each field resolved, the operator made explicit, and the right-hand
/// field of a field comparison resolved.
pub open spec fn spec_filters(m: SemanticModel, fs: Seq<FilterSpec>) -> Seq<(Seq<char>, Field, Seq<char>, JsonV, Option<(Seq<char>, Field)>)> {
    Seq::new(
        fs.len(),
        |i: int|
            (
                (spec_resolve(m, fs[i].field@)->Ok_0).0,
                (spec_resolve(m, fs[i].field@)->Ok_0).1,
                filter_operator(fs[i]),
                fs[i].value@,
                match rhs_ref(fs[i]) {
                    Some(r) => Some(spec_resolve(m, r)->Ok_0),
                    None => None,
                },
            ),
    )
}

/// The filter field references of a query.
pub open spec fn filter_fields(fs: Seq<FilterSpec>) -> Seq<Seq<char>> {
    Seq::new(fs.len(), |i: int| fs[i].field@)
}

/// Binds the filters of a query: filter fields first, then right-hand fields.
#[verifier::loop_isolation(false)]
fn bind_filters<'a>(model: &'a SemanticModel, spec: &SemanticQuery) -> (res: Result<Vec<BoundFilter<'a>>, QueryError>)
    requires
        forall|j: int|
            0 <= j < filter_fields(spec.filters@).len() ==> spec_field_ref(
                #[trigger] filter_fields(spec.filters@)[j],
            ) is Some,
        forall|j: int|
            0 <= j < rhs_paths(spec.filters@).len() ==> spec_field_ref(#[trigger] rhs_paths(spec.filters@)[j]) is Some,
    ensures
        ({
            let fl = filter_fields(spec.filters@);
            let rl = rhs_paths(spec.filters@);
            let fi = first_match(fl, unresolved(*model));
            let ri = first_match(rl, unresolved(*model));
            if fi >= 0 {
                res matches Err(x) && x@ == spec_resolve(*model, fl[fi])->Err_0
            } else if ri >= 0 {
                res matches Err(x) && x@ == spec_resolve(*model, rl[ri])->Err_0
            } else {
                res matches Ok(v) && filters_view(v@) == spec_filters(*model, spec.filters@)
            }
        }),
{
    let ghost rp = unresolved(*model);
    let ghost fl = filter_fields(spec.filters@);
    let mut fields: Vec<ResolvedField<'a>> = Vec::new();
    let mut k: usize = 0;
    while k < spec.filters.len()
        invariant
            k <= spec.filters@.len(),
            forall|j: int| 0 <= j < k ==> !rp(#[trigger] fl[j]),
            fields@.len() == k,
            forall|j: int|
                0 <= j < k ==> spec_resolve(*model, fl[j]) == Ok::<(Seq<char>, Field), QueryErrorV>(
                    ((#[trigger] fields@[j]).dataset@, *fields@[j].field),
                ),
        decreases spec.filters@.len() - k,
    {
        assert(fl[k as int] == spec.filters@[k as int].field@);
        match resolve_path(model, spec.filters[k].field.as_str()) {
            Err(e) => {
                proof {
                    lemma_first_match_at(fl, rp, k as int);
                }
                return Err(e);
            },
            Ok(r) => {
                fields.push(r);
            },
        }
        k = k + 1;
    }
    proof {
        lemma_first_match_none(fl, rp);
    }
    // The right-hand fields of field comparisons.
    let ghost rl = rhs_paths(spec.filters@);
    let mut rhs: Vec<Option<ResolvedField<'a>>> = Vec::new();
    let mut k: usize = 0;
    while k < spec.filters.len()
        invariant
            k <= spec.filters@.len(),
            rl == rhs_paths(spec.filters@),
            rhs_paths(spec.filters@.take(k as int)).len() <= rl.len(),
            forall|j: int| 0 <= j < rhs_paths(spec.filters@.take(k as int)).len() ==> !rp(#[trigger] rl[j]),
            rhs@.len() == k,
            forall|j: int|
                0 <= j < k ==> match rhs_ref(spec.filters@[j]) {
                    Some(r) => spec_resolve(*model, r) is Ok && ((#[trigger] rhs@[j]) matches Some(x)
                        && (x.dataset@, *x.field) == spec_resolve(*model, r)->Ok_0),
                    None => rhs@[j] is None,
                },
        decreases spec.filters@.len() - k,
    {
        let ghost n = rhs_paths(spec.filters@.take(k as int)).len();
        proof {
            lemma_rhs_paths_prefix(spec.filters@, k + 1);
            assert(spec.filters@.take(k + 1).drop_last() =~= spec.filters@.take(k as int));
        }
        match rhs_text(&spec.filters[k]) {
            None => {
                rhs.push(None);
            },
            Some(r) => {
                proof {
                    assert(rhs_paths(spec.filters@.take(k + 1))[n as int] == r@);
                    assert(rl[n as int] == r@);
                }
                match resolve_path(model, r) {
                    Err(e) => {
                        proof {
                            lemma_first_match_at(rl, rp, n as int);
                        }
                        return Err(e);
                    },
                    Ok(x) => {
                        rhs.push(Some(x));
                    },
                }
            },
        }
        k = k + 1;
    }
    proof {
        assert(spec.filters@.take(spec.filters@.len() as int) =~= spec.filters@);
        lemma_first_match_none(rl, rp);
    }
    let mut filters: Vec<BoundFilter<'a>> = Vec::new();
    let mut k: usize = 0;
    while k < spec.filters.len()
        invariant
            k <= spec.filters@.len(),
            fields@.len() == spec.filters@.len(),
            rhs@.len() == spec.filters@.len(),
            filters@.len() == k,
            forall|j: int|
                0 <= j < k ==> (#[trigger] filters@[j]).field.dataset@ == fields@[j].dataset@
                    && filters@[j].field.field == fields@[j].field && filters@[j].operator@
                    == filter_operator(spec.filters@[j]) && filters@[j].value@ == spec.filters@[j].value@
                    && match rhs@[j] {
                    Some(x) => (filters@[j].rhs_field matches Some(y) && y.dataset@ == x.dataset@
                        && y.field == x.field),
                    None => filters@[j].rhs_field is None,
                },
        decreases spec.filters@.len() - k,
    {
        let f = &spec.filters[k];
        let field = ResolvedField { dataset: fields[k].dataset.clone(), field: fields[k].field };
        let rhs_field = match &rhs[k] {
            Some(x) => Some(ResolvedField { dataset: x.dataset.clone(), field: x.field }),
            None => None,
        };
        let operator = match &f.operator {
            Some(o) => o.clone(),
            None => if f.value.is_array() {
                String::from_str("in")
            } else {
                String::from_str("eq")
            },
        };
        filters.push(BoundFilter { field, operator, value: f.value.clone(), rhs_field });
        k = k + 1;
    }
    proof {
        assert(filters_view(filters@) =~= spec_filters(*model, spec.filters@));
    }
    Ok(filters)
}

/// Resolve `spec` against the semantic model named `model_name` in `doc`.
#[verifier::loop_isolation(false)]
pub fn bind_query<'a>(doc: &'a OsiDocument, model_name: &str, spec: &SemanticQuery) -> (res: Result<BoundQuery<'a>, QueryError>)
    ensures
        match spec_bind(*doc, model_name@, *spec) {
            Ok(b) => res matches Ok(r) && r@ == b,
            Err(e) => res matches Err(x) && x@ == e,
        },
{
    if model_name.unicode_len() == 0 {
        return Err(QueryError::ModelNotFound(String::new()));
    }
    // The model.
    let ghost mp = model_named(model_name@);
    let mut mi: usize = 0;
    while mi < doc.semantic_model.len()
        invariant
            mi <= doc.semantic_model@.len(),
            forall|j: int| 0 <= j < mi ==> !mp(#[trigger] doc.semantic_model@[j]),
        decreases doc.semantic_model@.len() - mi,
    {
        if str_eq(doc.semantic_model[mi].name.as_str(), model_name) {
            break;
        }
        mi = mi + 1;
    }
    if mi == doc.semantic_model.len() {
        proof {
            lemma_first_match_none(doc.semantic_model@, mp);
        }
        return Err(QueryError::ModelNotFound(String::from_str(model_name)));
    }
    proof {
        lemma_first_match_at(doc.semantic_model@, mp, mi as int);
    }
    let model = &doc.semantic_model[mi];
    // The field references and the datasets they name.
    let paths = collect_paths(spec);
    let ghost pv = query_paths(*spec);
    let ghost bp = bad_ref();
    let mut pds: Vec<String> = Vec::new();
    let mut k: usize = 0;
    while k < paths.len()
        invariant
            strings_view(paths@) == pv,
            k <= paths@.len(),
            forall|j: int| 0 <= j < k ==> !bp(#[trigger] pv[j]),
            strings_view(pds@) == path_datasets(pv.take(k as int)),
        decreases paths@.len() - k,
    {
        match parse_field_ref(paths[k].as_str()) {
            Err(e) => {
                proof {
                    assert(bp(pv[k as int]));
                    lemma_first_match_at(pv, bp, k as int);
                }
                return Err(e);
            },
            Ok((ds, _)) => {
                proof {
                    lemma_path_datasets_prefix(pv, k as int);
                }
                if !contains_name(&pds, ds) {
                    let ghost before = pds@;
                    pds.push(String::from_str(ds));
                    proof {
                        assert(strings_view(pds@) =~= strings_view(before).push(ds@));
                    }
                }
            },
        }
        k = k + 1;
    }
    proof {
        lemma_first_match_none(pv, bp);
        crate::seqs::lemma_take_all(pv);
    }
    let ghost pdv = path_datasets(pv);
    // The root.
    let root: String = if pds.len() == 0 {
        if spec.metrics.len() == 0 {
            return Err(QueryError::EmptyQuery);
        }
        match &spec.dataset {
            Some(d) => d.clone(),
            None => {
                return Err(QueryError::MissingBaseDataset);
            },
        }
    } else if pds.len() == 1 {
        match &spec.dataset {
            Some(d) => d.clone(),
            None => pds[0].clone(),
        }
    } else {
        match &spec.dataset {
            Some(d) => d.clone(),
            None => {
                return Err(QueryError::MissingRootDataset);
            },
        }
    };
    proof {
        assert(spec_root(*spec, pdv) == Ok::<Seq<char>, QueryErrorV>(root@));
    }
    // The required datasets.
    let mut required = pds;
    if !contains_name(&required, root.as_str()) {
        required.push(root.clone());
    }
    let ghost req = required_datasets(pdv, root@);
    proof {
        assert(strings_view(required@) =~= req);
    }
    let ghost up = unknown_dataset(*model);
    let mut sources: Vec<(String, String)> = Vec::new();
    let mut k: usize = 0;
    while k < required.len()
        invariant
            strings_view(required@) == req,
            k <= required@.len(),
            forall|j: int| 0 <= j < k ==> !up(#[trigger] req[j]),
            sources@.len() == k,
            forall|j: int|
                0 <= j < k ==> (#[trigger] sources@[j]).0@ == req[j] && sources@[j].1@
                    == model.datasets@[dataset_index(*model, req[j])].source@,
        decreases required@.len() - k,
    {
        match find_dataset(model, required[k].as_str()) {
            None => {
                proof {
                    lemma_first_match_at(req, up, k as int);
                }
                return Err(QueryError::DatasetNotFound(required[k].clone()));
            },
            Some(di) => {
                sources.push((required[k].clone(), model.datasets[di].source.clone()));
            },
        }
        k = k + 1;
    }
    proof {
        lemma_first_match_none(req, up);
    }
    // Group-by fields.
    let ghost rp = unresolved(*model);
    let ghost gb = strings_view(spec.group_by@);
    let mut group_by: Vec<ResolvedField<'a>> = Vec::new();
    let mut k: usize = 0;
    while k < spec.group_by.len()
        invariant
            k <= spec.group_by@.len(),
            forall|j: int| 0 <= j < k ==> !rp(#[trigger] gb[j]),
            group_by@.len() == k,
            forall|j: int|
                0 <= j < k ==> spec_resolve(*model, gb[j]) == Ok::<(Seq<char>, Field), QueryErrorV>(
                    ((#[trigger] group_by@[j]).dataset@, *group_by@[j].field),
                ),
        decreases spec.group_by@.len() - k,
    {
        assert(pv[k as int] == gb[k as int]);
        match resolve_path(model, spec.group_by[k].as_str()) {
            Err(e) => {
                proof {
                    lemma_first_match_at(gb, rp, k as int);
                }
                return Err(e);
            },
            Ok(r) => {
                group_by.push(r);
            },
        }
        k = k + 1;
    }
    proof {
        lemma_first_match_none(gb, rp);
    }
    // Filters.
    proof {
        let fl = Seq::new(spec.filters@.len(), |i: int| spec.filters@[i].field@);
        let rl = rhs_paths(spec.filters@);
        assert forall|j: int| 0 <= j < fl.len() implies spec_field_ref(#[trigger] fl[j]) is Some by {
            assert(pv[gb.len() + j] == fl[j]);
        }
        assert forall|j: int| 0 <= j < rl.len() implies spec_field_ref(#[trigger] rl[j]) is Some by {
            assert(pv[gb.len() + fl.len() + j] == rl[j]);
        }
    }
    let filters = match bind_filters(model, spec) {
        Ok(f) => f,
        Err(e) => {
            return Err(e);
        },
    };
    // Metrics.
    let ghost xp = unknown_metric(*model);
    let ghost mets = strings_view(spec.metrics@);
    let mut metrics: Vec<&'a Metric> = Vec::new();
    let mut k: usize = 0;
    while k < spec.metrics.len()
        invariant
            k <= spec.metrics@.len(),
            forall|j: int| 0 <= j < k ==> !xp(#[trigger] mets[j]),
            metrics@.len() == k,
            forall|j: int|
                0 <= j < k ==> *(#[trigger] metrics@[j]) == model.metrics@[first_match(
                    model.metrics@,
                    metric_named(mets[j]),
                )],
        decreases spec.metrics@.len() - k,
    {
        match find_metric(model, spec.metrics[k].as_str()) {
            None => {
                proof {
                    lemma_first_match_at(mets, xp, k as int);
                }
                return Err(QueryError::MetricNotFound(spec.metrics[k].clone()));
            },
            Some(x) => {
                metrics.push(x);
            },
        }
        k = k + 1;
    }
    proof {
        lemma_first_match_none(mets, xp);
    }
    // Joins.
    let joins = if required.len() <= 1 {
        Vec::new()
    } else {
        match build_join_order(model, &required, root.as_str()) {
            Ok(j) => j,
            Err(e) => {
                return Err(e);
            },
        }
    };
    let res = BoundQuery {
        model_name: model.name.clone(),
        root_dataset: root,
        sources,
        joins,
        group_by,
        metrics,
        filters,
    };
    proof {
        let b = spec_bind(*doc, model_name@, *spec)->Ok_0;
        assert(res@.sources =~= b.sources);
        assert(res@.group_by =~= b.group_by);
        assert(res@.metrics =~= b.metrics);
        assert(res@.filters =~= b.filters);
        assert(res@.joins =~= b.joins);
    }
    Ok(res)
}

} // verus!
