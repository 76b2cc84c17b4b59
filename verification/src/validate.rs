//! Semantic checks on OSI documents beyond their shape: version, unique names, references, and
//! expression and MNML payload constraints.

use vstd::prelude::*;

use crate::json::{json_seq_view, jv_as_str, jv_get, jv_u32, parse_json_text, JsonV};
use crate::error::{Error, ErrorV};
use crate::model::dataset::Dataset;
use crate::model::document::OsiDocument;
use crate::model::enums::Vendor;
use crate::model::field::Field;
use crate::model::metric::Metric;
use crate::model::relationship::Relationship;
use crate::model::semantic_model::SemanticModel;
use crate::model::expression::{count_mnml_dialects, pick_mnml_dialect, spec_count_mnml, spec_pick_mnml, Expression};
use crate::model::mnml_dialect::{envelope_from_expression, spec_envelope_from_expression};
use crate::model::mnml_expression::{is_storage_value, spec_is_storage, MnmlExpressionKind};
use crate::plan::mnml::{ext_envelope, spec_ext_envelope};
use crate::resolver::bind::contains_name;
use crate::seqs::{lemma_filter_step, lemma_take_all};
use crate::model::extensions::{
    decode_storage, ext_json, storage_error, storage_matches, storage_ok, CustomExtension,
    MnmlDatasetStorage,
};
use crate::seqs::{concat, lemma_concat_push};
use crate::text::{
    contains_str, debug_str, has_infix, is_prefix, nat_text, push_str, push_u64, spec_debug_str,
    starts_with, str_chars, str_eq, strings_view, trim, trim_str,
};

verus! {

/// Whether `s[i]` is the first occurrence of a value that occurs again later.
pub open spec fn is_dup_at(s: Seq<Seq<char>>, i: int) -> bool {
    &&& forall|k: int| 0 <= k < i ==> s[k] != s[i]
    &&& exists|k: int| i < k < s.len() && s[k] == s[i]
}

/// The repeated values among the first `k` positions of `s`, at their first occurrences.
pub open spec fn dups_upto(s: Seq<Seq<char>>, k: nat) -> Seq<Seq<char>>
    decreases k,
{
    if k == 0 {
        Seq::empty()
    } else {
        let r = dups_upto(s, (k - 1) as nat);
        if is_dup_at(s, k - 1) {
            r.push(s[k - 1])
        } else {
            r
        }
    }
}

/// The values that occur more than once in `s`, each once, in order of first occurrence.
pub open spec fn duplicates(s: Seq<Seq<char>>) -> Seq<Seq<char>> {
    dups_upto(s, s.len())
}

proof fn lemma_dups_upto(s: Seq<Seq<char>>, k: nat)
    requires
        k <= s.len(),
    ensures
        forall|x: Seq<char>|
            dups_upto(s, k).contains(x) <==> exists|i: int| 0 <= i < k && is_dup_at(s, i) && #[trigger] s[i] == x,
        forall|a: int, b: int|
            0 <= a < b < dups_upto(s, k).len() ==> dups_upto(s, k)[a] != dups_upto(s, k)[b],
    decreases k,
{
    if k > 0 {
        let r = dups_upto(s, (k - 1) as nat);
        lemma_dups_upto(s, (k - 1) as nat);
        if is_dup_at(s, k - 1) {
            let d = r.push(s[k - 1]);
            assert forall|x: Seq<char>| d.contains(x) <==> exists|i: int|
                0 <= i < k && is_dup_at(s, i) && #[trigger] s[i] == x by {
                if d.contains(x) {
                    let w = choose|w: int| 0 <= w < d.len() && d[w] == x;
                    if w < r.len() {
                        assert(r[w] == x);
                        assert(r.contains(x));
                    } else {
                        assert(s[k - 1] == x);
                    }
                }
                if exists|i: int| 0 <= i < k && is_dup_at(s, i) && #[trigger] s[i] == x {
                    let i = choose|i: int| 0 <= i < k && is_dup_at(s, i) && #[trigger] s[i] == x;
                    if i < k - 1 {
                        assert(r.contains(x));
                        let w = choose|w: int| 0 <= w < r.len() && r[w] == x;
                        assert(d[w] == x);
                    } else {
                        assert(d[d.len() - 1] == x);
                    }
                }
            }
            assert forall|a: int, b: int| 0 <= a < b < d.len() implies d[a] != d[b] by {
                if b == d.len() - 1 {
                    assert(d[a] == r[a]);
                    assert(r.contains(r[a]));
                    let i = choose|i: int| 0 <= i < k - 1 && is_dup_at(s, i) && #[trigger] s[i] == r[a];
                    assert(s[i] != s[k - 1]);
                } else {
                    assert(d[a] == r[a] && d[b] == r[b]);
                }
            }
        } else {
            assert forall|x: Seq<char>| r.contains(x) <==> exists|i: int|
                0 <= i < k && is_dup_at(s, i) && #[trigger] s[i] == x by {
                if exists|i: int| 0 <= i < k && is_dup_at(s, i) && #[trigger] s[i] == x {
                    let i = choose|i: int| 0 <= i < k && is_dup_at(s, i) && #[trigger] s[i] == x;
                    assert(i != k - 1);
                }
            }
        }
    }
}

/// The repeated values of a list are exactly the values that occur in it at least twice, and
/// none of them is listed twice.
pub proof fn law_duplicates(s: Seq<Seq<char>>)
    ensures
        forall|x: Seq<char>|
            duplicates(s).contains(x) <==> exists|i: int, j: int|
                0 <= i < j < s.len() && #[trigger] s[i] == x && #[trigger] s[j] == x,
        forall|a: int, b: int| 0 <= a < b < duplicates(s).len() ==> duplicates(s)[a] != duplicates(s)[b],
{
    lemma_dups_upto(s, s.len());
    assert forall|x: Seq<char>| duplicates(s).contains(x) <==> exists|i: int, j: int|
        0 <= i < j < s.len() && #[trigger] s[i] == x && #[trigger] s[j] == x by {
        if duplicates(s).contains(x) {
            let i = choose|i: int| 0 <= i < s.len() && is_dup_at(s, i) && #[trigger] s[i] == x;
            let j = choose|j: int| i < j < s.len() && s[j] == s[i];
            assert(s[i] == x && s[j] == x);
        }
        if exists|i: int, j: int| 0 <= i < j < s.len() && #[trigger] s[i] == x && #[trigger] s[j] == x {
            let (i, j) = choose|i: int, j: int| 0 <= i < j < s.len() && #[trigger] s[i] == x && #[trigger] s[j] == x;
            let p = |y: Seq<char>| y == x;
            crate::seqs::lemma_first_match(s, p);
            let f = crate::seqs::first_match(s, p);
            assert(p(s[i]));
            assert(0 <= f <= i);
            assert(s[f] == x);
            assert forall|k: int| 0 <= k < f implies s[k] != s[f] by {
                assert(!p(s[k]));
            }
            assert(is_dup_at(s, f));
        }
    }
}

/// Whether `x` occurs in `names` between positions `lo` (inclusive) and `hi` (exclusive).
fn occurs_between(names: &Vec<String>, lo: usize, hi: usize, x: &str) -> (res: bool)
    requires
        lo <= hi <= names@.len(),
    ensures
        res == exists|k: int| lo <= k < hi && strings_view(names@)[k] == x@,
{
    let ghost s = strings_view(names@);
    let mut k = lo;
    while k < hi
        invariant
            s == strings_view(names@),
            lo <= k <= hi <= names@.len(),
            forall|j: int| lo <= j < k ==> s[j] != x@,
        decreases hi - k,
    {
        if str_eq(names[k].as_str(), x) {
            assert(s[k as int] == x@);
            return true;
        }
        k = k + 1;
    }
    false
}

/// Names that appear more than once, in order of the first occurrence of each.
fn duplicate_strings(names: &Vec<String>) -> (res: Vec<String>)
    ensures
        strings_view(res@) == duplicates(strings_view(names@)),
{
    let ghost s = strings_view(names@);
    let mut out: Vec<String> = Vec::new();
    let mut i: usize = 0;
    while i < names.len()
        invariant
            s == strings_view(names@),
            i <= names@.len(),
            strings_view(out@) == dups_upto(s, i as nat),
        decreases names@.len() - i,
    {
        let seen = occurs_between(names, 0, i, names[i].as_str());
        let later = occurs_between(names, i + 1, names.len(), names[i].as_str());
        proof {
            assert(s[i as int] == names@[i as int]@);
        }
        if !seen && later {
            let ghost before = strings_view(out@);
            out.push(names[i].clone());
            proof {
                assert(strings_view(out@) =~= before.push(s[i as int]));
            }
        }
        i = i + 1;
    }
    out
}

/// One message per repeated value: `prefix`, the value quoted, `suffix`.
pub open spec fn dup_msgs(dups: Seq<Seq<char>>, prefix: Seq<char>, suffix: Seq<char>) -> Seq<Seq<char>> {
    Seq::new(dups.len(), |i: int| prefix + spec_debug_str(dups[i]) + suffix)
}

/// Appends one message per repeated value of `names`.
fn push_dup_msgs(issues: &mut Vec<String>, names: &Vec<String>, prefix: &str, suffix: &str)
    ensures
        strings_view(final(issues)@) == strings_view(old(issues)@) + dup_msgs(
            duplicates(strings_view(names@)),
            prefix@,
            suffix@,
        ),
{
    let dups = duplicate_strings(names);
    let ghost start = strings_view(issues@);
    let ghost ds = strings_view(dups@);
    let mut i: usize = 0;
    while i < dups.len()
        invariant
            ds == strings_view(dups@),
            i <= dups@.len(),
            strings_view(issues@) == start + dup_msgs(ds.take(i as int), prefix@, suffix@),
        decreases dups@.len() - i,
    {
        let mut msg = String::from_str(prefix);
        let q = debug_str(dups[i].as_str());
        push_str(&mut msg, q.as_str());
        push_str(&mut msg, suffix);
        let ghost before = strings_view(issues@);
        issues.push(msg);
        proof {
            assert(ds[i as int] == dups@[i as int]@);
            assert(strings_view(issues@) =~= before.push(msg@));
            assert(dup_msgs(ds.take(i + 1), prefix@, suffix@) =~= dup_msgs(ds.take(i as int), prefix@, suffix@).push(
                msg@,
            ));
        }
        i = i + 1;
    }
    proof {
        assert(ds.take(ds.len() as int) =~= ds);
    }
}

/// What the storage checks read of a storage payload: its version, its location and, when it is
/// partitioned, its partitioning keys.
pub type StorageFacts = (u32, Seq<char>, Option<Seq<Seq<char>>>);

/// The storage facts of JSON that reads as storage.
pub open spec fn storage_facts(v: JsonV) -> StorageFacts {
    (
        jv_u32(jv_get(v, "version"@)->0)->0,
        jv_as_str(jv_get(v, "location"@)->0)->0,
        match jv_get(v, "partitioning"@) {
            None => None,
            Some(JsonV::Null) => None,
            Some(p) => Some(
                match jv_get(p, "keys"@) {
                    Some(JsonV::Array(items)) => Seq::new(items.len(), |i: int| jv_as_str(items[i])->0),
                    _ => Seq::empty(),
                },
            ),
        },
    )
}

/// The storage facts of a decoded payload.
pub open spec fn decoded_facts(s: MnmlDatasetStorage) -> StorageFacts {
    (
        s.version,
        s.location@,
        match s.partitioning {
            Some(p) => Some(strings_view(p.keys@)),
            None => None,
        },
    )
}

proof fn lemma_decoded_facts(s: MnmlDatasetStorage, v: JsonV)
    requires
        storage_ok(v),
        storage_matches(s, v),
    ensures
        decoded_facts(s) == storage_facts(v),
{
    if let Some(p) = jv_get(v, "partitioning"@) {
        if p != JsonV::Null {
            let sp = s.partitioning->0;
            match jv_get(p, "keys"@) {
                Some(JsonV::Array(items)) => {
                    assert(strings_view(sp.keys@) =~= Seq::new(items.len(), |i: int| jv_as_str(items[i])->0));
                },
                _ => {
                    assert(strings_view(sp.keys@) =~= Seq::<Seq<char>>::empty());
                },
            }
        }
    }
}

/// Whether a `..` segment of a `/`-separated path starts at `i`.
pub open spec fn parent_at(s: Seq<char>, i: int) -> bool {
    0 <= i && i + 2 <= s.len() && s[i] == '.' && s[i + 1] == '.' && (i == 0 || s[i - 1] == '/') && (i
        + 2 == s.len() || s[i + 2] == '/')
}

/// Whether a `/`-separated path has a `..` segment.
pub open spec fn has_parent_segment(s: Seq<char>) -> bool {
    exists|i: int| #[trigger] parent_at(s, i)
}

fn parent_segment(s: &str) -> (res: bool)
    ensures
        res == has_parent_segment(s@),
{
    let cs = str_chars(s);
    let n = cs.len();
    let mut i: usize = 0;
    while n >= 2 && i <= n - 2
        invariant
            cs@ == s@,
            i <= n,
            n == cs@.len(),
            forall|j: int| 0 <= j < i ==> !#[trigger] parent_at(s@, j),
        decreases n - i,
    {
        if cs[i] == '.' && cs[i + 1] == '.' && (i == 0 || cs[i - 1] == '/') && (i + 2 == n || cs[i + 2]
            == '/') {
            assert(parent_at(s@, i as int));
            return true;
        }
        i = i + 1;
    }
    assert forall|j: int| !#[trigger] parent_at(s@, j) by {
        if 0 <= j < i {
        }
    }
    false
}

/// The message list `seq![m]` when `c` holds, else no message.
pub open spec fn msg_if(c: bool, m: Seq<char>) -> Seq<Seq<char>> {
    if c {
        seq![m]
    } else {
        Seq::empty()
    }
}

/// Checks of a storage location: not empty after trimming; relative (no leading `/`, no URI
/// scheme); no `..` segment.
#[verifier::opaque]
pub open spec fn location_checks(head: Seq<char>, raw: Seq<char>) -> Seq<Seq<char>> {
    let loc = trim(raw);
    if loc.len() == 0 {
        seq![head + " has empty MNML storage location"@]
    } else {
        msg_if(
            is_prefix("/"@, loc),
            head + " location "@ + spec_debug_str(raw) + " must be relative (no leading '/')"@,
        ) + msg_if(
            has_infix(loc, "://"@),
            head + " location "@ + spec_debug_str(raw) + " must be relative (URI schemes are not allowed)"@,
        ) + msg_if(has_parent_segment(loc), head + " location "@ + spec_debug_str(raw) + " must not contain '..'"@)
    }
}

/// Checks of partitioning keys: at least one, no repeats, none blank.
#[verifier::opaque]
pub open spec fn keys_checks(head: Seq<char>, keys: Option<Seq<Seq<char>>>) -> Seq<Seq<char>> {
    match keys {
        None => Seq::empty(),
        Some(ks) => msg_if(ks.len() == 0, head + " partitioning.keys must not be empty"@) + dup_msgs(
            duplicates(ks),
            head + " partitioning.keys has duplicate key "@,
            ""@,
        ) + msg_if(
            exists|k: int| 0 <= k < ks.len() && trim(#[trigger] ks[k]).len() == 0,
            head + " partitioning.keys must not contain empty values"@,
        ),
    }
}

/// The checks of one storage payload: version 1, location, partitioning keys.
#[verifier::opaque]
pub open spec fn storage_checks(head: Seq<char>, f: StorageFacts) -> Seq<Seq<char>> {
    msg_if(f.0 != 1, head + " has unsupported MNML storage version "@ + nat_text(f.0 as nat) + "; expected 1"@)
        + location_checks(head, f.1) + keys_checks(head, f.2)
}

fn push_msg(issues: &mut Vec<String>, msg: String)
    ensures
        strings_view(final(issues)@) == strings_view(old(issues)@).push(msg@),
{
    issues.push(msg);
    proof {
        assert(strings_view(final(issues)@) =~= strings_view(old(issues)@).push(msg@));
    }
}

fn head_msg(head: &String, tail: &str) -> (res: String)
    ensures
        res@ == head@ + tail@,
{
    let mut m = head.clone();
    push_str(&mut m, tail);
    m
}

fn location_msg(head: &String, raw: &str, tail: &str) -> (res: String)
    ensures
        res@ == head@ + " location "@ + spec_debug_str(raw@) + tail@,
{
    let mut m = head.clone();
    push_str(&mut m, " location ");
    let q = debug_str(raw);
    push_str(&mut m, q.as_str());
    push_str(&mut m, tail);
    m
}

fn push_location_checks(issues: &mut Vec<String>, head: &String, raw: &str)
    ensures
        strings_view(final(issues)@) == strings_view(old(issues)@) + location_checks(head@, raw@),
{
    proof {
        reveal(location_checks);
    }
    let ghost start = strings_view(issues@);
    let loc = trim_str(raw);
    if loc.unicode_len() == 0 {
        push_msg(issues, head_msg(head, " has empty MNML storage location"));
    } else {
        if starts_with(loc, "/") {
            push_msg(issues, location_msg(head, raw, " must be relative (no leading '/')"));
        }
        if contains_str(loc, "://") {
            push_msg(issues, location_msg(head, raw, " must be relative (URI schemes are not allowed)"));
        }
        if parent_segment(loc) {
            push_msg(issues, location_msg(head, raw, " must not contain '..'"));
        }
    }
    proof {
        assert(strings_view(issues@) =~= start + location_checks(head@, raw@));
    }
}

fn push_keys_checks(issues: &mut Vec<String>, head: &String, keys: &Vec<String>)
    ensures
        strings_view(final(issues)@) == strings_view(old(issues)@) + keys_checks(head@, Some(strings_view(keys@))),
{
    proof {
        reveal(keys_checks);
    }
    let ghost start = strings_view(issues@);
    if keys.len() == 0 {
        push_msg(issues, head_msg(head, " partitioning.keys must not be empty"));
    }
    let ghost after_empty = strings_view(issues@);
    let prefix = head_msg(head, " partitioning.keys has duplicate key ");
    push_dup_msgs(issues, keys, prefix.as_str(), "");
    let ghost ks = strings_view(keys@);
    let mut blank = false;
    let mut k: usize = 0;
    while k < keys.len()
        invariant
            ks == strings_view(keys@),
            k <= keys@.len(),
            blank <==> exists|j: int| 0 <= j < k && trim(#[trigger] ks[j]).len() == 0,
        decreases keys@.len() - k,
    {
        let t = trim_str(keys[k].as_str());
        assert(ks[k as int] == keys@[k as int]@);
        if t.unicode_len() == 0 {
            blank = true;
        }
        k = k + 1;
    }
    let ghost after_dups = strings_view(issues@);
    if blank {
        push_msg(issues, head_msg(head, " partitioning.keys must not contain empty values"));
    }
    proof {
        assert(strings_view(issues@) =~= start + keys_checks(head@, Some(ks)));
    }
}

fn push_storage_checks(issues: &mut Vec<String>, head: &String, s: &MnmlDatasetStorage)
    ensures
        strings_view(final(issues)@) == strings_view(old(issues)@) + storage_checks(head@, decoded_facts(*s)),
{
    proof {
        reveal(storage_checks);
        reveal(keys_checks);
    }
    let ghost start = strings_view(issues@);
    if s.version != 1 {
        let mut m = head.clone();
        push_str(&mut m, " has unsupported MNML storage version ");
        push_u64(&mut m, s.version as u64);
        push_str(&mut m, "; expected 1");
        push_msg(issues, m);
    }
    let ghost a = strings_view(issues@);
    push_location_checks(issues, head, s.location.as_str());
    let ghost b = strings_view(issues@);
    if let Some(p) = &s.partitioning {
        push_keys_checks(issues, head, &p.keys);
    }
    proof {
        assert(strings_view(issues@) =~= b + keys_checks(head@, decoded_facts(*s).2));
        assert(strings_view(issues@) =~= start + storage_checks(head@, decoded_facts(*s)));
    }
}

/// The start of a dataset's storage messages.
pub open spec fn storage_head(model: Seq<char>, dataset: Seq<char>) -> Seq<char> {
    "[MNML] dataset "@ + spec_debug_str(dataset) + " (model "@ + spec_debug_str(model) + ")"@
}

/// What reading one extension as storage reports: an MNML extension whose data is not JSON, or
/// whose JSON has a `format` member but does not read as storage.
pub open spec fn ext_parse_issue(head: Seq<char>, e: CustomExtension) -> Seq<Seq<char>> {
    if e.vendor_name != Vendor::Mnml {
        Seq::empty()
    } else {
        match ext_json(e) {
            None => seq![head + " has invalid MNML extension JSON"@],
            Some(v) => msg_if(
                jv_get(v, "format"@) is Some && !storage_ok(v),
                head + " invalid storage payload: "@ + storage_error(v),
            ),
        }
    }
}

/// The storage an extension carries: an MNML extension whose JSON has a `format` member and
/// reads as storage.
pub open spec fn ext_storage(e: CustomExtension) -> Seq<StorageFacts> {
    if e.vendor_name == Vendor::Mnml && ext_json(e) is Some && jv_get(ext_json(e)->0, "format"@) is Some
        && storage_ok(ext_json(e)->0) {
        seq![storage_facts(ext_json(e)->0)]
    } else {
        Seq::empty()
    }
}

pub open spec fn parse_issue_lists(head: Seq<char>, exts: Seq<CustomExtension>) -> Seq<Seq<Seq<char>>> {
    Seq::new(exts.len(), |i: int| ext_parse_issue(head, exts[i]))
}

pub open spec fn storage_lists(exts: Seq<CustomExtension>) -> Seq<Seq<StorageFacts>> {
    Seq::new(exts.len(), |i: int| ext_storage(exts[i]))
}

pub open spec fn check_lists(head: Seq<char>, fs: Seq<StorageFacts>) -> Seq<Seq<Seq<char>>> {
    Seq::new(fs.len(), |i: int| storage_checks(head, fs[i]))
}

/// The storage messages of a dataset: reading each extension, at most one storage payload, and
/// the checks of each payload.
#[verifier::opaque]
pub open spec fn storage_issues(head: Seq<char>, exts: Seq<CustomExtension>) -> Seq<Seq<char>> {
    let facts = concat(storage_lists(exts));
    concat(parse_issue_lists(head, exts)) + msg_if(
        facts.len() > 1,
        head + " has multiple MNML storage extensions; expected at most one"@,
    ) + concat(check_lists(head, facts))
}

fn push_storage_issues(issues: &mut Vec<String>, head: &String, exts: &Vec<CustomExtension>)
    ensures
        strings_view(final(issues)@) == strings_view(old(issues)@) + storage_issues(head@, exts@),
{
    proof {
        reveal(storage_issues);
    }
    let ghost start = strings_view(issues@);
    let mut found: Vec<MnmlDatasetStorage> = Vec::new();
    let mut i: usize = 0;
    while i < exts.len()
        invariant
            i <= exts@.len(),
            strings_view(issues@) == start + concat(parse_issue_lists(head@, exts@.take(i as int))),
            Seq::new(found@.len(), |j: int| decoded_facts(found@[j])) == concat(storage_lists(exts@.take(i as int))),
        decreases exts@.len() - i,
    {
        let ghost before = strings_view(issues@);
        let ghost fbefore = found@;
        let e = &exts[i];
        proof {
            assert(parse_issue_lists(head@, exts@.take(i + 1)) =~= parse_issue_lists(head@, exts@.take(i as int)).push(
                ext_parse_issue(head@, *e),
            ));
            assert(storage_lists(exts@.take(i + 1)) =~= storage_lists(exts@.take(i as int)).push(ext_storage(*e)));
            lemma_concat_push(parse_issue_lists(head@, exts@.take(i as int)), ext_parse_issue(head@, *e));
            lemma_concat_push(storage_lists(exts@.take(i as int)), ext_storage(*e));
        }
        if e.vendor_name == Vendor::Mnml {
            match &parse_json_text(e.data.as_str()) {
                Err(_) => {
                    push_msg(issues, head_msg(head, " has invalid MNML extension JSON"));
                },
                Ok(v) => {
                    if v.get("format").is_some() {
                        match decode_storage(v) {
                            Ok(st) => {
                                proof {
                                    lemma_decoded_facts(st, v@);
                                }
                                found.push(st);
                                proof {
                                    assert(Seq::new(found@.len(), |j: int| decoded_facts(found@[j])) =~= Seq::new(
                                        fbefore.len(),
                                        |j: int| decoded_facts(fbefore[j]),
                                    ) + seq![decoded_facts(st)]);
                                }
                            },
                            Err(err) => {
                                let mut m = head.clone();
                                push_str(&mut m, " invalid storage payload: ");
                                push_str(&mut m, err.as_str());
                                push_msg(issues, m);
                            },
                        }
                    }
                },
            }
        }
        proof {
            assert(strings_view(issues@) =~= start + concat(parse_issue_lists(head@, exts@.take(i + 1))));
            assert(Seq::new(found@.len(), |j: int| decoded_facts(found@[j])) =~= concat(
                storage_lists(exts@.take(i + 1)),
            ));
        }
        i = i + 1;
    }
    proof {
        assert(exts@.take(exts@.len() as int) =~= exts@);
    }
    let ghost facts = concat(storage_lists(exts@));
    if found.len() > 1 {
        push_msg(issues, head_msg(head, " has multiple MNML storage extensions; expected at most one"));
    }
    let ghost mid = strings_view(issues@);
    let mut k: usize = 0;
    while k < found.len()
        invariant
            k <= found@.len(),
            facts.len() == found@.len(),
            forall|j: int| 0 <= j < found@.len() ==> #[trigger] facts[j] == decoded_facts(found@[j]),
            strings_view(issues@) == mid + concat(check_lists(head@, facts.take(k as int))),
        decreases found@.len() - k,
    {
        proof {
            assert(check_lists(head@, facts.take(k + 1)) =~= check_lists(head@, facts.take(k as int)).push(
                storage_checks(head@, facts[k as int]),
            ));
            lemma_concat_push(check_lists(head@, facts.take(k as int)), storage_checks(head@, facts[k as int]));
        }
        push_storage_checks(issues, head, &found[k]);
        k = k + 1;
    }
    proof {
        assert(facts.take(facts.len() as int) =~= facts);
        assert(strings_view(issues@) =~= start + storage_issues(head@, exts@));
    }
}

/// The predicate "an MNML extension, not storage-shaped, whose JSON has a `kind` member".
pub open spec fn is_kind_ext() -> spec_fn(CustomExtension) -> bool {
    |e: CustomExtension|
        e.vendor_name == Vendor::Mnml && !spec_is_storage(ext_json(e)) && ext_json(e) is Some && jv_get(
            ext_json(e)->0,
            "kind"@,
        ) is Some
}

/// The `Debug` name of an expression kind.
pub open spec fn kind_debug(k: MnmlExpressionKind) -> Seq<char> {
    match k {
        MnmlExpressionKind::FieldExpr => "FieldExpr"@,
        MnmlExpressionKind::Metric => "Metric"@,
    }
}

fn kind_name(k: MnmlExpressionKind) -> (res: &'static str)
    ensures
        res@ == kind_debug(k),
{
    match k {
        MnmlExpressionKind::FieldExpr => "FieldExpr",
        MnmlExpressionKind::Metric => "Metric",
    }
}

/// The checks of an expression that may be given by an MNML dialect entry or an MNML expression
/// extension: at most one of each and not both; a dialect body must be a mapping that converts; an
/// extension must read as an envelope of the expected kind; without either, at least one dialect
/// entry.
#[verifier::opaque]
pub open spec fn expr_issues(ctx: Seq<char>, expr: Expression, exts: Seq<CustomExtension>, kind: MnmlExpressionKind) -> Seq<
    Seq<char>,
> {
    let dc = spec_count_mnml(expr);
    let ec = exts.filter(is_kind_ext()).len();
    msg_if(dc > 1, "[MNML] "@ + ctx + " has multiple MNML dialect entries; expected at most one"@) + msg_if(
        ec > 1,
        "[MNML] "@ + ctx + " has multiple MNML expression extensions; expected at most one"@,
    ) + msg_if(
        dc > 0 && ec > 0,
        "[MNML] "@ + ctx + " must use either MNML dialect or MNML custom_extensions expression, not both"@,
    ) + match spec_pick_mnml(expr) {
        Some(body) => msg_if(!(body is Object), "[MNML] "@ + ctx + " MNML dialect body must be a mapping"@)
            + match spec_envelope_from_expression(expr, kind) {
            Err(e) => seq!["[MNML] "@ + ctx + " invalid MNML dialect: "@ + e],
            Ok(_) => Seq::empty(),
        },
        None => match spec_ext_envelope(exts) {
            Ok(Some(p)) => msg_if(
                p.0 != kind,
                "[MNML] "@ + ctx + " extension kind "@ + kind_debug(p.0) + " does not match expected "@
                    + kind_debug(kind),
            ),
            Ok(None) => msg_if(
                expr.dialects@.len() == 0,
                "[Expression] "@ + ctx + " must have at least one dialect entry"@,
            ),
            Err(e) => seq!["[MNML] "@ + ctx + " has invalid MNML expression extension: "@ + e],
        },
    }
}

fn count_kind_exts(exts: &Vec<CustomExtension>) -> (res: usize)
    ensures
        res == exts@.filter(is_kind_ext()).len(),
{
    let ghost p = is_kind_ext();
    let mut n: usize = 0;
    let mut i: usize = 0;
    while i < exts.len()
        invariant
            p == is_kind_ext(),
            i <= exts@.len(),
            n == exts@.take(i as int).filter(p).len(),
            n <= i,
        decreases exts@.len() - i,
    {
        proof {
            lemma_filter_step(exts@, p, i as int);
        }
        let e = &exts[i];
        let data = parse_json_text(e.data.as_str());
        let counts = e.vendor_name == Vendor::Mnml && !is_storage_value(&data) && match &data {
            Ok(v) => v.get("kind").is_some(),
            Err(_) => false,
        };
        if counts {
            n = n + 1;
        }
        i = i + 1;
    }
    proof {
        lemma_take_all(exts@);
    }
    n
}

fn ctx_msg(prefix: &str, ctx: &str, tail: &str) -> (res: String)
    ensures
        res@ == prefix@ + ctx@ + tail@,
{
    let mut m = String::from_str(prefix);
    push_str(&mut m, ctx);
    push_str(&mut m, tail);
    m
}

#[verifier::rlimit(50)]
#[verifier::spinoff_prover]
fn push_expr_issues(
    issues: &mut Vec<String>,
    ctx: &str,
    expr: &Expression,
    exts: &Vec<CustomExtension>,
    kind: MnmlExpressionKind,
)
    ensures
        strings_view(final(issues)@) == strings_view(old(issues)@) + expr_issues(ctx@, *expr, exts@, kind),
{
    proof {
        reveal(expr_issues);
    }
    let ghost start = strings_view(issues@);
    let dc = count_mnml_dialects(expr);
    let ec = count_kind_exts(exts);
    if dc > 1 {
        push_msg(issues, ctx_msg("[MNML] ", ctx, " has multiple MNML dialect entries; expected at most one"));
    }
    if ec > 1 {
        push_msg(
            issues,
            ctx_msg("[MNML] ", ctx, " has multiple MNML expression extensions; expected at most one"),
        );
    }
    if dc > 0 && ec > 0 {
        push_msg(
            issues,
            ctx_msg(
                "[MNML] ",
                ctx,
                " must use either MNML dialect or MNML custom_extensions expression, not both",
            ),
        );
    }
    let ghost counted = strings_view(issues@);
    if let Some(body) = pick_mnml_dialect(expr) {
        if body.as_object().is_none() {
            push_msg(issues, ctx_msg("[MNML] ", ctx, " MNML dialect body must be a mapping"));
        }
        if let Err(e) = envelope_from_expression(expr, kind) {
            let mut m = ctx_msg("[MNML] ", ctx, " invalid MNML dialect: ");
            push_str(&mut m, e.as_str());
            push_msg(issues, m);
        }
        proof {
            assert(strings_view(issues@) =~= start + expr_issues(ctx@, *expr, exts@, kind));
        }
        return;
    }
    match ext_envelope(exts) {
        Ok(Some((k, _))) => {
            if k != kind {
                let mut m = ctx_msg("[MNML] ", ctx, " extension kind ");
                push_str(&mut m, kind_name(k));
                push_str(&mut m, " does not match expected ");
                push_str(&mut m, kind_name(kind));
                push_msg(issues, m);
            }
        },
        Ok(None) => {
            if expr.dialects.len() == 0 {
                push_msg(issues, ctx_msg("[Expression] ", ctx, " must have at least one dialect entry"));
            }
        },
        Err(e) => {
            let mut m = ctx_msg("[MNML] ", ctx, " has invalid MNML expression extension: ");
            push_str(&mut m, e.as_str());
            push_msg(issues, m);
        },
    }
    proof {
        assert(strings_view(issues@) =~= start + expr_issues(ctx@, *expr, exts@, kind));
    }
}

/// The checks of a relationship: column lists of equal length, and both ends naming datasets of
/// the model (`known`).
#[verifier::opaque]
pub open spec fn rel_issues(model: Seq<char>, known: Seq<Seq<char>>, r: Relationship) -> Seq<Seq<char>> {
    msg_if(
        r.from_columns@.len() != r.to_columns@.len(),
        "[Relationship] "@ + spec_debug_str(r.name@) + ": from_columns length "@ + nat_text(
            r.from_columns@.len(),
        ) + " does not match to_columns length "@ + nat_text(r.to_columns@.len()),
    ) + msg_if(
        !known.contains(r.from@),
        "[Reference] relationship "@ + spec_debug_str(r.name@) + " references unknown dataset "@
            + spec_debug_str(r.from@) + " (model "@ + spec_debug_str(model) + ")"@,
    ) + msg_if(
        !known.contains(r.to@),
        "[Reference] relationship "@ + spec_debug_str(r.name@) + " references unknown dataset "@
            + spec_debug_str(r.to@) + " (model "@ + spec_debug_str(model) + ")"@,
    )
}

fn unknown_end_msg(r: &Relationship, end: &str, model: &str) -> (res: String)
    ensures
        res@ == "[Reference] relationship "@ + spec_debug_str(r.name@) + " references unknown dataset "@
            + spec_debug_str(end@) + " (model "@ + spec_debug_str(model@) + ")"@,
{
    let mut m = String::from_str("[Reference] relationship ");
    push_str(&mut m, debug_str(r.name.as_str()).as_str());
    push_str(&mut m, " references unknown dataset ");
    push_str(&mut m, debug_str(end).as_str());
    push_str(&mut m, " (model ");
    push_str(&mut m, debug_str(model).as_str());
    push_str(&mut m, ")");
    proof {
        reveal_strlit("[Reference] relationship ");
    }
    m
}

fn push_rel_issues(issues: &mut Vec<String>, model: &str, known: &Vec<String>, r: &Relationship)
    ensures
        strings_view(final(issues)@) == strings_view(old(issues)@) + rel_issues(model@, strings_view(known@), *r),
{
    proof {
        reveal(rel_issues);
    }
    let ghost start = strings_view(issues@);
    if r.from_columns.len() != r.to_columns.len() {
        let mut m = String::from_str("[Relationship] ");
        push_str(&mut m, debug_str(r.name.as_str()).as_str());
        push_str(&mut m, ": from_columns length ");
        push_u64(&mut m, r.from_columns.len() as u64);
        push_str(&mut m, " does not match to_columns length ");
        push_u64(&mut m, r.to_columns.len() as u64);
        proof {
            reveal_strlit("[Relationship] ");
        }
        push_msg(issues, m);
    }
    if !contains_name(known, r.from.as_str()) {
        push_msg(issues, unknown_end_msg(r, r.from.as_str(), model));
    }
    if !contains_name(known, r.to.as_str()) {
        push_msg(issues, unknown_end_msg(r, r.to.as_str(), model));
    }
    proof {
        assert(strings_view(issues@) =~= start + rel_issues(model@, strings_view(known@), *r));
    }
}

/// The names of datasets, fields, metrics and relationships, in order.
pub open spec fn dataset_names(v: Seq<Dataset>) -> Seq<Seq<char>> {
    Seq::new(v.len(), |i: int| v[i].name@)
}

pub open spec fn field_names(v: Seq<Field>) -> Seq<Seq<char>> {
    Seq::new(v.len(), |i: int| v[i].name@)
}

pub open spec fn metric_names(v: Seq<Metric>) -> Seq<Seq<char>> {
    Seq::new(v.len(), |i: int| v[i].name@)
}

pub open spec fn rel_names(v: Seq<Relationship>) -> Seq<Seq<char>> {
    Seq::new(v.len(), |i: int| v[i].name@)
}

/// The context in which a field's expression is reported.
pub open spec fn field_ctx(dataset: Seq<char>, field: Seq<char>) -> Seq<char> {
    "field "@ + spec_debug_str(dataset) + "."@ + spec_debug_str(field)
}

/// The context in which a metric's expression is reported.
pub open spec fn metric_ctx(metric: Seq<char>) -> Seq<char> {
    "metric "@ + spec_debug_str(metric)
}

pub open spec fn field_issue_lists(dataset: Seq<char>, fs: Seq<Field>) -> Seq<Seq<Seq<char>>> {
    Seq::new(
        fs.len(),
        |i: int|
            expr_issues(
                field_ctx(dataset, fs[i].name@),
                fs[i].expression,
                fs[i].custom_extensions@,
                MnmlExpressionKind::FieldExpr,
            ),
    )
}

/// The checks of a dataset: unique field names, each field's expression, its storage extensions.
#[verifier::opaque]
pub open spec fn dataset_issues(model: Seq<char>, d: Dataset) -> Seq<Seq<char>> {
    dup_msgs(
        duplicates(field_names(d.fields@)),
        "[Unique] duplicate field name "@,
        " in dataset "@ + spec_debug_str(d.name@) + " (model "@ + spec_debug_str(model) + ")"@,
    ) + concat(field_issue_lists(d.name@, d.fields@)) + storage_issues(
        storage_head(model, d.name@),
        d.custom_extensions@,
    )
}

fn names_of_fields(v: &Vec<Field>) -> (res: Vec<String>)
    ensures
        strings_view(res@) == field_names(v@),
{
    let mut out: Vec<String> = Vec::new();
    let mut i: usize = 0;
    while i < v.len()
        invariant
            i <= v@.len(),
            strings_view(out@) == field_names(v@).take(i as int),
        decreases v@.len() - i,
    {
        let ghost before = out@;
        let n = v[i].name.clone();
        out.push(n);
        proof {
            assert(out@ == before.push(n));
            assert(strings_view(out@) =~= strings_view(before).push(n@));
            assert(field_names(v@).take(i + 1) =~= field_names(v@).take(i as int).push(v@[i as int].name@));
        }
        i = i + 1;
    }
    proof {
        assert(field_names(v@).take(v@.len() as int) =~= field_names(v@));
    }
    out
}

fn push_dataset_issues(issues: &mut Vec<String>, model: &str, d: &Dataset)
    ensures
        strings_view(final(issues)@) == strings_view(old(issues)@) + dataset_issues(model@, *d),
{
    proof {
        reveal(dataset_issues);
    }
    let ghost start = strings_view(issues@);
    let names = names_of_fields(&d.fields);
    let mut suffix = String::from_str(" in dataset ");
    push_str(&mut suffix, debug_str(d.name.as_str()).as_str());
    push_str(&mut suffix, " (model ");
    push_str(&mut suffix, debug_str(model).as_str());
    push_str(&mut suffix, ")");
    push_dup_msgs(issues, &names, "[Unique] duplicate field name ", suffix.as_str());
    let ghost mid = strings_view(issues@);
    let mut i: usize = 0;
    while i < d.fields.len()
        invariant
            i <= d.fields@.len(),
            strings_view(issues@) == mid + concat(field_issue_lists(d.name@, d.fields@.take(i as int))),
        decreases d.fields@.len() - i,
    {
        let f = &d.fields[i];
        let mut ctx = String::from_str("field ");
        push_str(&mut ctx, debug_str(d.name.as_str()).as_str());
        push_str(&mut ctx, ".");
        push_str(&mut ctx, debug_str(f.name.as_str()).as_str());
        proof {
            assert(field_issue_lists(d.name@, d.fields@.take(i + 1)) =~= field_issue_lists(
                d.name@,
                d.fields@.take(i as int),
            ).push(expr_issues(ctx@, f.expression, f.custom_extensions@, MnmlExpressionKind::FieldExpr)));
            lemma_concat_push(
                field_issue_lists(d.name@, d.fields@.take(i as int)),
                expr_issues(ctx@, f.expression, f.custom_extensions@, MnmlExpressionKind::FieldExpr),
            );
        }
        push_expr_issues(issues, ctx.as_str(), &f.expression, &f.custom_extensions, MnmlExpressionKind::FieldExpr);
        proof {
            assert(strings_view(issues@) =~= mid + concat(field_issue_lists(d.name@, d.fields@.take(i + 1))));
        }
        i = i + 1;
    }
    proof {
        assert(d.fields@.take(d.fields@.len() as int) =~= d.fields@);
    }
    let ghost after_fields = strings_view(issues@);
    let mut head = String::from_str("[MNML] dataset ");
    push_str(&mut head, debug_str(d.name.as_str()).as_str());
    push_str(&mut head, " (model ");
    push_str(&mut head, debug_str(model).as_str());
    push_str(&mut head, ")");
    push_storage_issues(issues, &head, &d.custom_extensions);
    proof {
        assert(strings_view(issues@) =~= start + dataset_issues(model@, *d));
    }
}

fn names_of_dataset(v: &Vec<Dataset>) -> (res: Vec<String>)
    ensures
        strings_view(res@) == dataset_names(v@),
{
    let mut out: Vec<String> = Vec::new();
    let mut i: usize = 0;
    while i < v.len()
        invariant
            i <= v@.len(),
            strings_view(out@) == dataset_names(v@).take(i as int),
        decreases v@.len() - i,
    {
        let ghost before = out@;
        let n = v[i].name.clone();
        out.push(n);
        proof {
            assert(out@ == before.push(n));
            assert(strings_view(out@) =~= strings_view(before).push(n@));
            assert(dataset_names(v@).take(i + 1) =~= dataset_names(v@).take(i as int).push(v@[i as int].name@));
        }
        i = i + 1;
    }
    proof {
        assert(dataset_names(v@).take(v@.len() as int) =~= dataset_names(v@));
    }
    out
}

fn names_of_metric(v: &Vec<Metric>) -> (res: Vec<String>)
    ensures
        strings_view(res@) == metric_names(v@),
{
    let mut out: Vec<String> = Vec::new();
    let mut i: usize = 0;
    while i < v.len()
        invariant
            i <= v@.len(),
            strings_view(out@) == metric_names(v@).take(i as int),
        decreases v@.len() - i,
    {
        let ghost before = out@;
        let n = v[i].name.clone();
        out.push(n);
        proof {
            assert(out@ == before.push(n));
            assert(strings_view(out@) =~= strings_view(before).push(n@));
            assert(metric_names(v@).take(i + 1) =~= metric_names(v@).take(i as int).push(v@[i as int].name@));
        }
        i = i + 1;
    }
    proof {
        assert(metric_names(v@).take(v@.len() as int) =~= metric_names(v@));
    }
    out
}

fn names_of_rel(v: &Vec<Relationship>) -> (res: Vec<String>)
    ensures
        strings_view(res@) == rel_names(v@),
{
    let mut out: Vec<String> = Vec::new();
    let mut i: usize = 0;
    while i < v.len()
        invariant
            i <= v@.len(),
            strings_view(out@) == rel_names(v@).take(i as int),
        decreases v@.len() - i,
    {
        let ghost before = out@;
        let n = v[i].name.clone();
        out.push(n);
        proof {
            assert(out@ == before.push(n));
            assert(strings_view(out@) =~= strings_view(before).push(n@));
            assert(rel_names(v@).take(i + 1) =~= rel_names(v@).take(i as int).push(v@[i as int].name@));
        }
        i = i + 1;
    }
    proof {
        assert(rel_names(v@).take(v@.len() as int) =~= rel_names(v@));
    }
    out
}

pub open spec fn dataset_issue_lists(model: Seq<char>, ds: Seq<Dataset>) -> Seq<Seq<Seq<char>>> {
    Seq::new(ds.len(), |i: int| dataset_issues(model, ds[i]))
}

pub open spec fn metric_issue_lists(ms: Seq<Metric>) -> Seq<Seq<Seq<char>>> {
    Seq::new(
        ms.len(),
        |i: int|
            expr_issues(metric_ctx(ms[i].name@), ms[i].expression, ms[i].custom_extensions@, MnmlExpressionKind::Metric),
    )
}

pub open spec fn rel_issue_lists(model: Seq<char>, known: Seq<Seq<char>>, rs: Seq<Relationship>) -> Seq<
    Seq<Seq<char>>,
> {
    Seq::new(rs.len(), |i: int| rel_issues(model, known, rs[i]))
}

/// The checks of a semantic model: at least one dataset; unique dataset, metric and relationship
/// names; each dataset, each metric's expression, each relationship.
#[verifier::opaque]
pub open spec fn model_issues(m: SemanticModel) -> Seq<Seq<char>> {
    let mn = spec_debug_str(m.name@);
    msg_if(m.datasets@.len() == 0, "[SemanticModel] model "@ + mn + " must have at least one dataset"@)
        + dup_msgs(duplicates(dataset_names(m.datasets@)), "[Unique] duplicate dataset name "@, " in model "@ + mn)
        + concat(dataset_issue_lists(m.name@, m.datasets@)) + dup_msgs(
        duplicates(metric_names(m.metrics@)),
        "[Unique] duplicate metric name "@,
        " in model "@ + mn,
    ) + concat(metric_issue_lists(m.metrics@)) + dup_msgs(
        duplicates(rel_names(m.relationships@)),
        "[Unique] duplicate relationship name "@,
        " in model "@ + mn,
    ) + concat(rel_issue_lists(m.name@, dataset_names(m.datasets@), m.relationships@))
}

fn push_model_issues(issues: &mut Vec<String>, m: &SemanticModel)
    ensures
        strings_view(final(issues)@) == strings_view(old(issues)@) + model_issues(*m),
{
    proof {
        reveal(model_issues);
    }
    let ghost start = strings_view(issues@);
    let model = m.name.as_str();
    let mq = debug_str(model);
    if m.datasets.len() == 0 {
        push_msg(issues, ctx_msg("[SemanticModel] model ", mq.as_str(), " must have at least one dataset"));
    }
    let mut in_model = String::from_str(" in model ");
    push_str(&mut in_model, mq.as_str());
    let dataset_list = names_of_dataset(&m.datasets);
    push_dup_msgs(issues, &dataset_list, "[Unique] duplicate dataset name ", in_model.as_str());
    let ghost a = strings_view(issues@);
    let mut i: usize = 0;
    while i < m.datasets.len()
        invariant
            i <= m.datasets@.len(),
            model@ == m.name@,
            strings_view(issues@) == a + concat(dataset_issue_lists(m.name@, m.datasets@.take(i as int))),
        decreases m.datasets@.len() - i,
    {
        proof {
            assert(dataset_issue_lists(m.name@, m.datasets@.take(i + 1)) =~= dataset_issue_lists(
                m.name@,
                m.datasets@.take(i as int),
            ).push(dataset_issues(m.name@, m.datasets@[i as int])));
            lemma_concat_push(
                dataset_issue_lists(m.name@, m.datasets@.take(i as int)),
                dataset_issues(m.name@, m.datasets@[i as int]),
            );
        }
        push_dataset_issues(issues, model, &m.datasets[i]);
        proof {
            assert(strings_view(issues@) =~= a + concat(dataset_issue_lists(m.name@, m.datasets@.take(i + 1))));
        }
        i = i + 1;
    }
    proof {
        assert(m.datasets@.take(m.datasets@.len() as int) =~= m.datasets@);
    }
    let ghost b = strings_view(issues@);
    let metric_list = names_of_metric(&m.metrics);
    push_dup_msgs(issues, &metric_list, "[Unique] duplicate metric name ", in_model.as_str());
    let ghost c = strings_view(issues@);
    let mut i: usize = 0;
    while i < m.metrics.len()
        invariant
            i <= m.metrics@.len(),
            strings_view(issues@) == c + concat(metric_issue_lists(m.metrics@.take(i as int))),
        decreases m.metrics@.len() - i,
    {
        let x = &m.metrics[i];
        let mut ctx = String::from_str("metric ");
        push_str(&mut ctx, debug_str(x.name.as_str()).as_str());
        proof {
            assert(metric_issue_lists(m.metrics@.take(i + 1)) =~= metric_issue_lists(m.metrics@.take(i as int)).push(
                expr_issues(ctx@, x.expression, x.custom_extensions@, MnmlExpressionKind::Metric),
            ));
            lemma_concat_push(
                metric_issue_lists(m.metrics@.take(i as int)),
                expr_issues(ctx@, x.expression, x.custom_extensions@, MnmlExpressionKind::Metric),
            );
        }
        push_expr_issues(issues, ctx.as_str(), &x.expression, &x.custom_extensions, MnmlExpressionKind::Metric);
        proof {
            assert(strings_view(issues@) =~= c + concat(metric_issue_lists(m.metrics@.take(i + 1))));
        }
        i = i + 1;
    }
    proof {
        assert(m.metrics@.take(m.metrics@.len() as int) =~= m.metrics@);
    }
    let ghost d = strings_view(issues@);
    let rel_list = names_of_rel(&m.relationships);
    push_dup_msgs(issues, &rel_list, "[Unique] duplicate relationship name ", in_model.as_str());
    let ghost e = strings_view(issues@);
    let mut i: usize = 0;
    while i < m.relationships.len()
        invariant
            i <= m.relationships@.len(),
            model@ == m.name@,
            strings_view(dataset_list@) == dataset_names(m.datasets@),
            strings_view(issues@) == e + concat(
                rel_issue_lists(m.name@, dataset_names(m.datasets@), m.relationships@.take(i as int)),
            ),
        decreases m.relationships@.len() - i,
    {
        proof {
            assert(rel_issue_lists(m.name@, dataset_names(m.datasets@), m.relationships@.take(i + 1))
                =~= rel_issue_lists(m.name@, dataset_names(m.datasets@), m.relationships@.take(i as int)).push(
                rel_issues(m.name@, dataset_names(m.datasets@), m.relationships@[i as int]),
            ));
            lemma_concat_push(
                rel_issue_lists(m.name@, dataset_names(m.datasets@), m.relationships@.take(i as int)),
                rel_issues(m.name@, dataset_names(m.datasets@), m.relationships@[i as int]),
            );
        }
        push_rel_issues(issues, model, &dataset_list, &m.relationships[i]);
        proof {
            assert(strings_view(issues@) =~= e + concat(
                rel_issue_lists(m.name@, dataset_names(m.datasets@), m.relationships@.take(i + 1)),
            ));
        }
        i = i + 1;
    }
    proof {
        assert(m.relationships@.take(m.relationships@.len() as int) =~= m.relationships@);
        assert(strings_view(issues@) =~= start + model_issues(*m));
    }
}

pub open spec fn model_issue_lists(ms: Seq<SemanticModel>) -> Seq<Seq<Seq<char>>> {
    Seq::new(ms.len(), |i: int| model_issues(ms[i]))
}

/// The version of the OSI specification that documents must declare.
pub open spec fn expected_version() -> Seq<char> {
    "0.1.1"@
}

/// All issues of a document: its version, then each semantic model.
pub open spec fn spec_issues(doc: OsiDocument) -> Seq<Seq<char>> {
    msg_if(
        doc.version@ != expected_version(),
        "[Version] expected "@ + spec_debug_str(expected_version()) + ", got "@ + spec_debug_str(doc.version@),
    ) + concat(model_issue_lists(doc.semantic_model@))
}

/// Validate an [`OsiDocument`] (version, uniqueness, references, expression shape).
pub fn validate(doc: &OsiDocument) -> (res: Result<(), Error>)
    ensures
        res is Ok <==> spec_issues(*doc).len() == 0,
        res matches Err(e) ==> e@ == ErrorV::Validation(spec_issues(*doc)),
{
    let mut issues: Vec<String> = Vec::new();
    let expected = "0.1.1";
    if !str_eq(doc.version.as_str(), expected) {
        let mut m = String::from_str("[Version] expected ");
        push_str(&mut m, debug_str(expected).as_str());
        push_str(&mut m, ", got ");
        push_str(&mut m, debug_str(doc.version.as_str()).as_str());
        push_msg(&mut issues, m);
    }
    let ghost a = strings_view(issues@);
    let mut i: usize = 0;
    while i < doc.semantic_model.len()
        invariant
            i <= doc.semantic_model@.len(),
            strings_view(issues@) == a + concat(model_issue_lists(doc.semantic_model@.take(i as int))),
        decreases doc.semantic_model@.len() - i,
    {
        proof {
            assert(model_issue_lists(doc.semantic_model@.take(i + 1)) =~= model_issue_lists(
                doc.semantic_model@.take(i as int),
            ).push(model_issues(doc.semantic_model@[i as int])));
            lemma_concat_push(
                model_issue_lists(doc.semantic_model@.take(i as int)),
                model_issues(doc.semantic_model@[i as int]),
            );
        }
        push_model_issues(&mut issues, &doc.semantic_model[i]);
        proof {
            assert(strings_view(issues@) =~= a + concat(model_issue_lists(doc.semantic_model@.take(i + 1))));
        }
        i = i + 1;
    }
    proof {
        assert(doc.semantic_model@.take(doc.semantic_model@.len() as int) =~= doc.semantic_model@);
        assert(strings_view(issues@) =~= spec_issues(*doc));
    }
    if issues.len() == 0 {
        Ok(())
    } else {
        Err(Error::Validation(issues))
    }
}

/// A message of one of the lists is a message of their concatenation.
proof fn lemma_concat_contains(ss: Seq<Seq<Seq<char>>>, i: int, x: Seq<char>)
    requires
        0 <= i < ss.len(),
        ss[i].contains(x),
    ensures
        concat(ss).contains(x),
    decreases ss.len(),
{
    let t = ss.drop_last();
    assert(concat(ss) == concat(t) + ss.last());
    if i == ss.len() - 1 {
        let w = choose|w: int| 0 <= w < ss[i].len() && ss[i][w] == x;
        assert((concat(t) + ss.last())[concat(t).len() + w] == x);
    } else {
        assert(t[i] == ss[i]);
        lemma_concat_contains(t, i, x);
        let w = choose|w: int| 0 <= w < concat(t).len() && concat(t)[w] == x;
        assert((concat(t) + ss.last())[w] == x);
    }
}

/// The message reported for a name listed more than once.
pub open spec fn dup_msg(prefix: Seq<char>, name: Seq<char>, suffix: Seq<char>) -> Seq<char> {
    prefix + spec_debug_str(name) + suffix
}

proof fn lemma_dup_reported(names: Seq<Seq<char>>, i: int, j: int, prefix: Seq<char>, suffix: Seq<char>)
    requires
        0 <= i < j < names.len(),
        names[i] == names[j],
    ensures
        dup_msgs(duplicates(names), prefix, suffix).contains(dup_msg(prefix, names[i], suffix)),
{
    law_duplicates(names);
    assert(duplicates(names).contains(names[i]));
    let w = choose|w: int| 0 <= w < duplicates(names).len() && duplicates(names)[w] == names[i];
    assert(dup_msgs(duplicates(names), prefix, suffix)[w] == dup_msg(prefix, names[i], suffix));
}

/// What the checks of a model report: a model without datasets; every dataset, metric and
/// relationship name listed more than once; a relationship whose column lists differ in length;
/// and a relationship end that names no dataset of the model. A document reports every issue
/// of each of its models.
pub proof fn law_model_issue_messages(doc: OsiDocument, k: int)
    requires
        0 <= k < doc.semantic_model@.len(),
    ensures
        ({
            let m = doc.semantic_model@[k];
            let mn = spec_debug_str(m.name@);
            let ds = dataset_names(m.datasets@);
            let xs = metric_names(m.metrics@);
            let rs = m.relationships@;
            &&& m.datasets@.len() == 0 ==> spec_issues(doc).contains(
                "[SemanticModel] model "@ + mn + " must have at least one dataset"@,
            )
            &&& forall|i: int, j: int|
                0 <= i < j < ds.len() && #[trigger] ds[i] == #[trigger] ds[j] ==> spec_issues(doc).contains(
                    dup_msg("[Unique] duplicate dataset name "@, ds[i], " in model "@ + mn),
                )
            &&& forall|i: int, j: int|
                0 <= i < j < xs.len() && #[trigger] xs[i] == #[trigger] xs[j] ==> spec_issues(doc).contains(
                    dup_msg("[Unique] duplicate metric name "@, xs[i], " in model "@ + mn),
                )
            &&& forall|i: int, j: int|
                0 <= i < j < rs.len() && (#[trigger] rs[i]).name@ == (#[trigger] rs[j]).name@ ==> spec_issues(
                    doc,
                ).contains(dup_msg("[Unique] duplicate relationship name "@, rs[i].name@, " in model "@ + mn))
            &&& forall|i: int|
                0 <= i < rs.len() && (#[trigger] rs[i]).from_columns@.len() != rs[i].to_columns@.len()
                    ==> spec_issues(doc).contains(
                    "[Relationship] "@ + spec_debug_str(rs[i].name@) + ": from_columns length "@ + nat_text(
                        rs[i].from_columns@.len(),
                    ) + " does not match to_columns length "@ + nat_text(rs[i].to_columns@.len()),
                )
            &&& forall|i: int|
                0 <= i < rs.len() && !ds.contains((#[trigger] rs[i]).from@) ==> spec_issues(doc).contains(
                    "[Reference] relationship "@ + spec_debug_str(rs[i].name@) + " references unknown dataset "@
                        + spec_debug_str(rs[i].from@) + " (model "@ + mn + ")"@,
                )
            &&& forall|i: int|
                0 <= i < rs.len() && !ds.contains((#[trigger] rs[i]).to@) ==> spec_issues(doc).contains(
                    "[Reference] relationship "@ + spec_debug_str(rs[i].name@) + " references unknown dataset "@
                        + spec_debug_str(rs[i].to@) + " (model "@ + mn + ")"@,
                )
        }),
{
    reveal(model_issues);
    let m = doc.semantic_model@[k];
    let mn = spec_debug_str(m.name@);
    let ds = dataset_names(m.datasets@);
    let xs = metric_names(m.metrics@);
    let rs = m.relationships@;
    let mi = model_issues(m);
    let all = model_issue_lists(doc.semantic_model@);
    assert(all[k] == mi);
    assert(spec_issues(doc) == msg_if(
        doc.version@ != expected_version(),
        "[Version] expected "@ + spec_debug_str(expected_version()) + ", got "@ + spec_debug_str(doc.version@),
    ) + concat(all));
    let head = msg_if(
        doc.version@ != expected_version(),
        "[Version] expected "@ + spec_debug_str(expected_version()) + ", got "@ + spec_debug_str(doc.version@),
    );
    assert forall|t: Seq<char>| mi.contains(t) implies spec_issues(doc).contains(t) by {
        lemma_concat_contains(all, k, t);
        let w = choose|w: int| 0 <= w < concat(all).len() && concat(all)[w] == t;
        assert((head + concat(all))[head.len() + w] == t);
    }
    let a = msg_if(m.datasets@.len() == 0, "[SemanticModel] model "@ + mn + " must have at least one dataset"@);
    let b = dup_msgs(duplicates(ds), "[Unique] duplicate dataset name "@, " in model "@ + mn);
    let c = concat(dataset_issue_lists(m.name@, m.datasets@));
    let d = dup_msgs(duplicates(xs), "[Unique] duplicate metric name "@, " in model "@ + mn);
    let e = concat(metric_issue_lists(m.metrics@));
    let f = dup_msgs(duplicates(rel_names(rs)), "[Unique] duplicate relationship name "@, " in model "@ + mn);
    let g = concat(rel_issue_lists(m.name@, ds, rs));
    assert(mi == a + b + c + d + e + f + g);
    if m.datasets@.len() == 0 {
        assert(mi[0] == a[0]);
        assert(mi.contains("[SemanticModel] model "@ + mn + " must have at least one dataset"@));
    }
    assert forall|i: int, j: int| 0 <= i < j < ds.len() && #[trigger] ds[i] == #[trigger] ds[j] implies spec_issues(
        doc,
    ).contains(dup_msg("[Unique] duplicate dataset name "@, ds[i], " in model "@ + mn)) by {
        lemma_dup_reported(ds, i, j, "[Unique] duplicate dataset name "@, " in model "@ + mn);
        let w = choose|w: int| 0 <= w < b.len() && b[w] == dup_msg("[Unique] duplicate dataset name "@, ds[i], " in model "@ + mn);
        assert(mi[a.len() + w] == b[w]);
        assert(mi.contains(dup_msg("[Unique] duplicate dataset name "@, ds[i], " in model "@ + mn)));
    }
    assert forall|i: int, j: int| 0 <= i < j < xs.len() && #[trigger] xs[i] == #[trigger] xs[j] implies spec_issues(
        doc,
    ).contains(dup_msg("[Unique] duplicate metric name "@, xs[i], " in model "@ + mn)) by {
        lemma_dup_reported(xs, i, j, "[Unique] duplicate metric name "@, " in model "@ + mn);
        let w = choose|w: int| 0 <= w < d.len() && d[w] == dup_msg("[Unique] duplicate metric name "@, xs[i], " in model "@ + mn);
        assert(mi[a.len() + b.len() + c.len() + w] == d[w]);
        assert(mi.contains(dup_msg("[Unique] duplicate metric name "@, xs[i], " in model "@ + mn)));
    }
    assert forall|i: int, j: int| 0 <= i < j < rs.len() && (#[trigger] rs[i]).name@ == (#[trigger] rs[j]).name@ implies spec_issues(
        doc,
    ).contains(dup_msg("[Unique] duplicate relationship name "@, rs[i].name@, " in model "@ + mn)) by {
        let rn = rel_names(rs);
        assert(rn[i] == rs[i].name@ && rn[j] == rs[j].name@);
        lemma_dup_reported(rn, i, j, "[Unique] duplicate relationship name "@, " in model "@ + mn);
        let w = choose|w: int| 0 <= w < f.len() && f[w] == dup_msg("[Unique] duplicate relationship name "@, rn[i], " in model "@ + mn);
        assert(mi[a.len() + b.len() + c.len() + d.len() + e.len() + w] == f[w]);
        assert(mi.contains(dup_msg("[Unique] duplicate relationship name "@, rs[i].name@, " in model "@ + mn)));
    }
    assert forall|i: int, t: Seq<char>| 0 <= i < rs.len() && #[trigger] rel_issues(m.name@, ds, rs[i]).contains(t)
        implies spec_issues(doc).contains(t) by {
        let ri = rel_issues(m.name@, ds, rs[i]);
        let lists = rel_issue_lists(m.name@, ds, rs);
        assert(lists[i] == ri);
        lemma_concat_contains(lists, i, t);
        let w = choose|w: int| 0 <= w < g.len() && g[w] == t;
        assert(mi[a.len() + b.len() + c.len() + d.len() + e.len() + f.len() + w] == t);
        assert(mi.contains(t));
    }
    assert forall|i: int| 0 <= i < rs.len() implies {
        &&& (#[trigger] rs[i]).from_columns@.len() != rs[i].to_columns@.len() ==> spec_issues(doc).contains(
            "[Relationship] "@ + spec_debug_str(rs[i].name@) + ": from_columns length "@ + nat_text(
                rs[i].from_columns@.len(),
            ) + " does not match to_columns length "@ + nat_text(rs[i].to_columns@.len()),
        )
        &&& !ds.contains(rs[i].from@) ==> spec_issues(doc).contains(
            "[Reference] relationship "@ + spec_debug_str(rs[i].name@) + " references unknown dataset "@
                + spec_debug_str(rs[i].from@) + " (model "@ + mn + ")"@,
        )
        &&& !ds.contains(rs[i].to@) ==> spec_issues(doc).contains(
            "[Reference] relationship "@ + spec_debug_str(rs[i].name@) + " references unknown dataset "@
                + spec_debug_str(rs[i].to@) + " (model "@ + mn + ")"@,
        )
    } by {
        let r = rs[i];
        let x = msg_if(
            r.from_columns@.len() != r.to_columns@.len(),
            "[Relationship] "@ + spec_debug_str(r.name@) + ": from_columns length "@ + nat_text(
                r.from_columns@.len(),
            ) + " does not match to_columns length "@ + nat_text(r.to_columns@.len()),
        );
        let y = msg_if(
            !ds.contains(r.from@),
            "[Reference] relationship "@ + spec_debug_str(r.name@) + " references unknown dataset "@
                + spec_debug_str(r.from@) + " (model "@ + spec_debug_str(m.name@) + ")"@,
        );
        let z = msg_if(
            !ds.contains(r.to@),
            "[Reference] relationship "@ + spec_debug_str(r.name@) + " references unknown dataset "@
                + spec_debug_str(r.to@) + " (model "@ + spec_debug_str(m.name@) + ")"@,
        );
        let ri = rel_issues(m.name@, ds, r);
        reveal(rel_issues);
        assert(ri == x + y + z);
        if x.len() > 0 {
            assert(ri[0] == x[0]);
            assert(ri.contains(x[0]));
        }
        if y.len() > 0 {
            assert(ri[x.len() as int] == y[0]);
            assert(ri.contains(y[0]));
        }
        if z.len() > 0 {
            assert(ri[(x.len() + y.len()) as int] == z[0]);
            assert(ri.contains(z[0]));
        }
    }
}

/// Whether a storage payload passes its checks: version 1; a location that, trimmed, is not
/// empty, does not start with `/`, holds no `://` and has no `..` segment; and partitioning keys,
/// when it has partitioning, that are not empty, hold no key twice and no blank key.
pub open spec fn storage_facts_ok(f: StorageFacts) -> bool {
    &&& f.0 == 1
    &&& trim(f.1).len() > 0
    &&& !is_prefix("/"@, trim(f.1))
    &&& !has_infix(trim(f.1), "://"@)
    &&& !has_parent_segment(trim(f.1))
    &&& f.2 matches Some(ks) ==> {
        &&& ks.len() > 0
        &&& forall|i: int, j: int| 0 <= i < j < ks.len() ==> #[trigger] ks[i] != #[trigger] ks[j]
        &&& forall|k: int| 0 <= k < ks.len() ==> trim(#[trigger] ks[k]).len() > 0
    }
}

/// The checks of a storage payload report nothing exactly when it passes them.
pub proof fn law_storage_checks_empty(head: Seq<char>, f: StorageFacts)
    ensures
        storage_checks(head, f).len() == 0 <==> storage_facts_ok(f),
{
    reveal(storage_checks);
    reveal(location_checks);
    reveal(keys_checks);
    match f.2 {
        None => {},
        Some(ks) => {
            law_duplicates(ks);
            if duplicates(ks).len() > 0 {
                assert(duplicates(ks).contains(duplicates(ks)[0]));
            }
            if exists|i: int, j: int| 0 <= i < j < ks.len() && #[trigger] ks[i] == #[trigger] ks[j] {
                let (i, j) = choose|i: int, j: int| 0 <= i < j < ks.len() && #[trigger] ks[i] == #[trigger] ks[j];
                assert(duplicates(ks).contains(ks[i]));
            }
        },
    }
}

/// A concatenation is empty exactly when each of its lists is.
proof fn lemma_concat_empty<T>(ss: Seq<Seq<T>>)
    ensures
        concat(ss).len() == 0 <==> forall|i: int| 0 <= i < ss.len() ==> (#[trigger] ss[i]).len() == 0,
    decreases ss.len(),
{
    if ss.len() > 0 {
        lemma_concat_empty(ss.drop_last());
        assert(concat(ss) == concat(ss.drop_last()) + ss.last());
        if concat(ss).len() == 0 {
            assert forall|i: int| 0 <= i < ss.len() implies (#[trigger] ss[i]).len() == 0 by {
                if i < ss.len() - 1 {
                    assert(ss.drop_last()[i] == ss[i]);
                }
            }
        } else {
            if concat(ss.drop_last()).len() > 0 {
                let i = choose|i: int| 0 <= i < ss.drop_last().len() && (#[trigger] ss.drop_last()[i]).len() != 0;
                assert(ss[i] == ss.drop_last()[i]);
            }
        }
    }
}

/// Whether an extension reads cleanly: not an MNML one, or its data is JSON that, when it has a
/// `format` member, reads as storage.
pub open spec fn ext_reads_as_storage(e: CustomExtension) -> bool {
    e.vendor_name == Vendor::Mnml ==> (ext_json(e) matches Some(v) && (jv_get(v, "format"@) is Some ==> storage_ok(
        v,
    )))
}

/// The storage messages of a dataset are empty exactly when every MNML extension reads as JSON
/// and, when that JSON has a `format` member, as storage; there is at most one storage payload;
/// and each payload passes its checks ([`storage_facts_ok`]).
pub proof fn law_storage_issues_empty(head: Seq<char>, exts: Seq<CustomExtension>)
    ensures
        storage_issues(head, exts).len() == 0 <==> {
            &&& forall|i: int| 0 <= i < exts.len() ==> ext_reads_as_storage(#[trigger] exts[i])
            &&& concat(storage_lists(exts)).len() <= 1
            &&& forall|k: int|
                0 <= k < concat(storage_lists(exts)).len() ==> storage_facts_ok(
                    #[trigger] concat(storage_lists(exts))[k],
                )
        },
{
    reveal(storage_issues);
    let pl = parse_issue_lists(head, exts);
    let facts = concat(storage_lists(exts));
    let cl = check_lists(head, facts);
    lemma_concat_empty(pl);
    lemma_concat_empty(cl);
    assert((concat(pl).len() == 0) <==> forall|i: int| 0 <= i < exts.len() ==> ext_reads_as_storage(
        #[trigger] exts[i],
    )) by {
        if concat(pl).len() == 0 {
            assert forall|i: int| 0 <= i < exts.len() implies ext_reads_as_storage(#[trigger] exts[i]) by {
                assert(pl[i].len() == 0);
                assert(pl[i] == ext_parse_issue(head, exts[i]));
            }
        } else {
            let i = choose|i: int| 0 <= i < pl.len() && (#[trigger] pl[i]).len() != 0;
            assert(pl[i] == ext_parse_issue(head, exts[i]));
            assert(!ext_reads_as_storage(exts[i]));
        }
    }
    assert((concat(cl).len() == 0) <==> forall|k: int| 0 <= k < facts.len() ==> storage_facts_ok(
        #[trigger] facts[k],
    )) by {
        if concat(cl).len() == 0 {
            assert forall|k: int| 0 <= k < facts.len() implies storage_facts_ok(#[trigger] facts[k]) by {
                assert(cl[k].len() == 0);
                law_storage_checks_empty(head, facts[k]);
            }
        } else {
            let k = choose|k: int| 0 <= k < cl.len() && (#[trigger] cl[k]).len() != 0;
            law_storage_checks_empty(head, facts[k]);
            assert(!storage_facts_ok(facts[k]));
        }
    }

}

pub open spec fn many_dialects_msg(ctx: Seq<char>) -> Seq<char> {
    "[MNML] "@ + ctx + " has multiple MNML dialect entries; expected at most one"@
}

pub open spec fn many_exts_msg(ctx: Seq<char>) -> Seq<char> {
    "[MNML] "@ + ctx + " has multiple MNML expression extensions; expected at most one"@
}

pub open spec fn both_kinds_msg(ctx: Seq<char>) -> Seq<char> {
    "[MNML] "@ + ctx + " must use either MNML dialect or MNML custom_extensions expression, not both"@
}

/// The messages the counts of an expression's MNML entries give.
pub open spec fn count_issues(ctx: Seq<char>, dialects: nat, exts: nat) -> Seq<Seq<char>> {
    msg_if(dialects > 1, many_dialects_msg(ctx)) + msg_if(exts > 1, many_exts_msg(ctx)) + msg_if(
        dialects > 0 && exts > 0,
        both_kinds_msg(ctx),
    )
}

/// The checks of an expression open with the messages of its counts: one for more than one MNML
/// dialect entry, one for more than one MNML expression extension (those with a `kind` member),
/// one for both kinds present; each given exactly when its count says so.
pub proof fn law_expr_issue_counts(
    ctx: Seq<char>,
    expr: Expression,
    exts: Seq<CustomExtension>,
    kind: MnmlExpressionKind,
)
    ensures
        ({
            let c = count_issues(ctx, spec_count_mnml(expr), exts.filter(is_kind_ext()).len());
            &&& expr_issues(ctx, expr, exts, kind).take(c.len() as int) == c
            &&& c.contains(many_dialects_msg(ctx)) <==> spec_count_mnml(expr) > 1
            &&& c.contains(many_exts_msg(ctx)) <==> exts.filter(is_kind_ext()).len() > 1
            &&& c.contains(both_kinds_msg(ctx)) <==> spec_count_mnml(expr) > 0 && exts.filter(is_kind_ext()).len() > 0
        }),
{
    reveal(expr_issues);
    let dc = spec_count_mnml(expr);
    let ec = exts.filter(is_kind_ext()).len();
    let c = count_issues(ctx, dc, ec);
    let all = expr_issues(ctx, expr, exts, kind);
    assert(all.take(c.len() as int) =~= c);
    reveal_strlit("[MNML] ");
    reveal_strlit(" has multiple MNML dialect entries; expected at most one");
    reveal_strlit(" has multiple MNML expression extensions; expected at most one");
    reveal_strlit(" must use either MNML dialect or MNML custom_extensions expression, not both");
    let (a, b, d) = (many_dialects_msg(ctx), many_exts_msg(ctx), both_kinds_msg(ctx));
    assert(a.len() != b.len() && a.len() != d.len() && b.len() != d.len());
    if dc > 1 {
        assert(c[0] == a);
    }
    if ec > 1 {
        assert(c[msg_if(dc > 1, a).len() as int] == b);
    }
    if dc > 0 && ec > 0 {
        assert(c[c.len() - 1] == d);
    }
}

/// The checks of one relationship give exactly: one message when its column lists differ in
/// length, one for its `from` end when that names no dataset of the model, one for its `to` end
/// likewise; in that order and nothing else.
pub proof fn law_rel_issues_exact(model: Seq<char>, known: Seq<Seq<char>>, r: Relationship)
    ensures
        rel_issues(model, known, r) == msg_if(
            r.from_columns@.len() != r.to_columns@.len(),
            "[Relationship] "@ + spec_debug_str(r.name@) + ": from_columns length "@ + nat_text(
                r.from_columns@.len(),
            ) + " does not match to_columns length "@ + nat_text(r.to_columns@.len()),
        ) + msg_if(
            !known.contains(r.from@),
            "[Reference] relationship "@ + spec_debug_str(r.name@) + " references unknown dataset "@
                + spec_debug_str(r.from@) + " (model "@ + spec_debug_str(model) + ")"@,
        ) + msg_if(
            !known.contains(r.to@),
            "[Reference] relationship "@ + spec_debug_str(r.name@) + " references unknown dataset "@
                + spec_debug_str(r.to@) + " (model "@ + spec_debug_str(model) + ")"@,
        ),
{
    reveal(rel_issues);
}

/// The duplicate-dataset messages of a model: right after the no-dataset message (when there is
/// one), one message for each dataset name listed more than once, each such name taken once, in
/// order of first occurrence.
pub proof fn law_model_duplicate_section(m: SemanticModel)
    ensures
        ({
            let mn = spec_debug_str(m.name@);
            let a = msg_if(m.datasets@.len() == 0, "[SemanticModel] model "@ + mn + " must have at least one dataset"@);
            let ds = dataset_names(m.datasets@);
            let dup = duplicates(ds);
            &&& model_issues(m).take(a.len() as int) == a
            &&& model_issues(m).subrange(a.len() as int, (a.len() + dup.len()) as int) == dup_msgs(
                dup,
                "[Unique] duplicate dataset name "@,
                " in model "@ + mn,
            )
            &&& forall|x: Seq<char>|
                dup.contains(x) <==> exists|i: int, j: int|
                    0 <= i < j < ds.len() && #[trigger] ds[i] == x && #[trigger] ds[j] == x
            &&& forall|i: int, j: int| 0 <= i < j < dup.len() ==> dup[i] != dup[j]
        }),
{
    reveal(model_issues);
    let mn = spec_debug_str(m.name@);
    let a = msg_if(m.datasets@.len() == 0, "[SemanticModel] model "@ + mn + " must have at least one dataset"@);
    let ds = dataset_names(m.datasets@);
    let dup = duplicates(ds);
    let b = dup_msgs(dup, "[Unique] duplicate dataset name "@, " in model "@ + mn);
    law_duplicates(ds);
    let mi = model_issues(m);
    assert(mi.take(a.len() as int) =~= a);
    assert(mi.subrange(a.len() as int, (a.len() + dup.len()) as int) =~= b);
}

} // verus!
