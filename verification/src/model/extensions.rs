//! Vendor custom extensions (`$defs.CustomExtension`) and the MNML dataset storage payload.

use vstd::prelude::*;

use super::enums::Vendor;
use super::mnml_expression::{is_storage_value, spec_is_storage};
use crate::seqs::{lemma_filter_prefix, lemma_filter_step, lemma_take_all};
use crate::json::{
    json_reading, parse_json_text,
    first_unknown_key, jv_as_str, jv_get, jv_u32, keys_within, read_unit_variant, strs_view,
    unit_variant, JsonV, JsonValue,
};

verus! {

/// Vendor-specific attributes for extensibility. `data` is often a JSON document as a string.
pub struct CustomExtension {
    pub vendor_name: Vendor,
    pub data: String,
}

/// The JSON reading of an extension's data (`None` when it is not valid JSON).
pub open spec fn ext_json(e: CustomExtension) -> Option<JsonV> {
    json_reading(e.data@)
}

/// MNML dataset storage metadata (vendor extension payload).
pub struct MnmlDatasetStorage {
    pub version: u32,
    pub format: MnmlStorageFormat,
    pub location: String,
    pub partitioning: Option<MnmlPartitioning>,
}

#[derive(Clone, Copy, Debug, PartialEq, Eq, Structural)]
pub enum MnmlStorageFormat {
    Parquet,
}

pub struct MnmlPartitioning {
    pub style: MnmlPartitioningStyle,
    pub keys: Vec<String>,
}

#[derive(Clone, Copy, Debug, PartialEq, Eq, Structural)]
pub enum MnmlPartitioningStyle {
    Hive,
}

pub open spec fn storage_keys() -> Seq<Seq<char>> {
    seq!["version"@, "format"@, "location"@, "partitioning"@]
}

pub open spec fn partitioning_keys() -> Seq<Seq<char>> {
    seq!["style"@, "keys"@]
}

/// Whether `v` is an array of strings.
pub open spec fn is_string_array(v: JsonV) -> bool {
    v matches JsonV::Array(items) && forall|i: int| 0 <= i < items.len() ==> (#[trigger] items[i]) is String
}

/// Whether `v` reads as an [`MnmlPartitioning`]: an object with only `style` and `keys`, whose
/// `style` is `hive` and whose `keys`, when present, is an array of strings.
pub open spec fn partitioning_ok(v: JsonV) -> bool {
    &&& v matches JsonV::Object(m) && keys_within(m, partitioning_keys())
    &&& jv_get(v, "style"@) matches Some(s) && unit_variant(s, seq!["hive"@]) == 0
    &&& jv_get(v, "keys"@) matches Some(k) ==> is_string_array(k)
}

/// Whether `v` reads as an [`MnmlDatasetStorage`] (`serde_json::from_value` with
/// `deny_unknown_fields`, from the object form).
pub open spec fn storage_ok(v: JsonV) -> bool {
    &&& v matches JsonV::Object(m) && keys_within(m, storage_keys())
    &&& jv_get(v, "version"@) matches Some(n) && jv_u32(n) is Some
    &&& jv_get(v, "format"@) matches Some(f) && unit_variant(f, seq!["parquet"@]) == 0
    &&& jv_get(v, "location"@) matches Some(l) && l is String
    &&& jv_get(v, "partitioning"@) matches Some(p) ==> (p == JsonV::Null || partitioning_ok(p))
}

/// The storage that `v` reads as, when [`storage_ok`] holds.
pub open spec fn storage_matches(s: MnmlDatasetStorage, v: JsonV) -> bool {
    &&& Some(s.version) == jv_u32(jv_get(v, "version"@).unwrap())
    &&& s.format == MnmlStorageFormat::Parquet
    &&& Some(s.location@) == jv_as_str(jv_get(v, "location"@).unwrap())
    &&& match jv_get(v, "partitioning"@) {
        None => s.partitioning is None,
        Some(JsonV::Null) => s.partitioning is None,
        Some(p) => s.partitioning matches Some(sp) && sp.style == MnmlPartitioningStyle::Hive && match jv_get(
            p,
            "keys"@,
        ) {
            None => sp.keys@.len() == 0,
            Some(JsonV::Array(items)) => sp.keys@.len() == items.len() && forall|i: int|
                0 <= i < items.len() ==> Some(#[trigger] sp.keys@[i]@) == jv_as_str(items[i]),
            Some(_) => false,
        },
    }
}

/// Why `v` does not read as an [`MnmlPartitioning`] (the first check that fails).
pub open spec fn partitioning_error(v: JsonV) -> Seq<char> {
    if !(v is Object) {
        "invalid type: expected struct MnmlPartitioning"@
    } else if !keys_within(v->Object_0, partitioning_keys()) {
        "unknown field, expected `style` or `keys`"@
    } else if jv_get(v, "style"@) is None {
        "missing field `style`"@
    } else if unit_variant(jv_get(v, "style"@)->0, seq!["hive"@]) != 0 {
        "unknown variant, expected `hive`"@
    } else {
        "invalid type: expected a sequence of strings"@
    }
}

/// Why `v` does not read as an [`MnmlDatasetStorage`] (the first check that fails).
pub open spec fn storage_error(v: JsonV) -> Seq<char> {
    if !(v is Object) {
        "invalid type: expected struct MnmlDatasetStorage"@
    } else if !keys_within(v->Object_0, storage_keys()) {
        "unknown field, expected one of `version`, `format`, `location`, `partitioning`"@
    } else if jv_get(v, "version"@) is None {
        "missing field `version`"@
    } else if jv_u32(jv_get(v, "version"@)->0) is None {
        "invalid value: expected u32"@
    } else if jv_get(v, "format"@) is None {
        "missing field `format`"@
    } else if unit_variant(jv_get(v, "format"@)->0, seq!["parquet"@]) != 0 {
        "unknown variant, expected `parquet`"@
    } else if jv_get(v, "location"@) is None {
        "missing field `location`"@
    } else if !(jv_get(v, "location"@)->0 is String) {
        "invalid type: expected a string"@
    } else {
        partitioning_error(jv_get(v, "partitioning"@)->0)
    }
}

fn read_string_array(v: &JsonValue) -> (res: Option<Vec<String>>)
    ensures
        res is Some <==> is_string_array(v@),
        res matches Some(keys) ==> (v@ matches JsonV::Array(items) && keys@.len() == items.len()
            && forall|i: int| 0 <= i < items.len() ==> Some(#[trigger] keys@[i]@) == jv_as_str(items[i])),
{
    match v.as_array() {
        None => None,
        Some(items) => {
            let ghost iv = crate::json::json_seq_view(items@);
            let mut out: Vec<String> = Vec::new();
            let mut i: usize = 0;
            while i < items.len()
                invariant
                    iv == crate::json::json_seq_view(items@),
                    v@ == JsonV::Array(iv),
                    i <= items.len(),
                    out@.len() == i,
                    forall|j: int| 0 <= j < i ==> iv[j] is String,
                    forall|j: int| 0 <= j < i ==> Some(#[trigger] out@[j]@) == jv_as_str(iv[j]),
                decreases items.len() - i,
            {
                assert(iv[i as int] == items@[i as int]@);
                match items[i].as_str() {
                    Some(s) => {
                        out.push(String::from_str(s));
                    },
                    None => {
                        return None;
                    },
                }
                i = i + 1;
            }
            Some(out)
        },
    }
}

fn decode_partitioning(v: &JsonValue) -> (res: Result<MnmlPartitioning, String>)
    ensures
        res is Ok <==> partitioning_ok(v@),
        res matches Err(m) ==> m@ == partitioning_error(v@),
        res matches Ok(p) ==> p.style == MnmlPartitioningStyle::Hive && match jv_get(v@, "keys"@) {
            None => p.keys@.len() == 0,
            Some(JsonV::Array(items)) => p.keys@.len() == items.len() && forall|i: int|
                0 <= i < items.len() ==> Some(#[trigger] p.keys@[i]@) == jv_as_str(items[i]),
            Some(_) => false,
        },
{
    let members = match v.as_object() {
        Some(m) => m,
        None => {
            return Err(String::from_str("invalid type: expected struct MnmlPartitioning"));
        },
    };
    let allowed: [&str; 2] = ["style", "keys"];
    proof {
        assert(strs_view(allowed@) =~= partitioning_keys());
    }
    if let Some(_) = first_unknown_key(members, &allowed) {
        return Err(String::from_str("unknown field, expected `style` or `keys`"));
    }
    match v.get("style") {
        None => {
            return Err(String::from_str("missing field `style`"));
        },
        Some(s) => {
            let hive: [&str; 1] = ["hive"];
            proof {
                assert(strs_view(hive@) =~= seq!["hive"@]);
            }
            if !matches!(read_unit_variant(s, &hive), Some(0)) {
                return Err(String::from_str("unknown variant, expected `hive`"));
            }
        },
    }
    let keys = match v.get("keys") {
        None => Vec::new(),
        Some(k) => match read_string_array(k) {
            Some(keys) => keys,
            None => {
                return Err(String::from_str("invalid type: expected a sequence of strings"));
            },
        },
    };
    Ok(MnmlPartitioning { style: MnmlPartitioningStyle::Hive, keys })
}

/// Reads an [`MnmlDatasetStorage`] from JSON, as `serde_json::from_value` does for the object form.
pub fn decode_storage(v: &JsonValue) -> (res: Result<MnmlDatasetStorage, String>)
    ensures
        res is Ok <==> storage_ok(v@),
        res matches Err(m) ==> m@ == storage_error(v@),
        res matches Ok(s) ==> storage_matches(s, v@),
{
    let members = match v.as_object() {
        Some(m) => m,
        None => {
            return Err(String::from_str("invalid type: expected struct MnmlDatasetStorage"));
        },
    };
    let allowed: [&str; 4] = ["version", "format", "location", "partitioning"];
    proof {
        assert(strs_view(allowed@) =~= storage_keys());
    }
    if let Some(_) = first_unknown_key(members, &allowed) {
        return Err(
            String::from_str(
                "unknown field, expected one of `version`, `format`, `location`, `partitioning`",
            ),
        );
    }
    let version = match v.get("version") {
        None => {
            return Err(String::from_str("missing field `version`"));
        },
        Some(n) => match n.as_u32() {
            Some(x) => x,
            None => {
                return Err(String::from_str("invalid value: expected u32"));
            },
        },
    };
    match v.get("format") {
        None => {
            return Err(String::from_str("missing field `format`"));
        },
        Some(f) => {
            let parquet: [&str; 1] = ["parquet"];
            proof {
                assert(strs_view(parquet@) =~= seq!["parquet"@]);
            }
            if !matches!(read_unit_variant(f, &parquet), Some(0)) {
                return Err(String::from_str("unknown variant, expected `parquet`"));
            }
        },
    }
    let location = match v.get("location") {
        None => {
            return Err(String::from_str("missing field `location`"));
        },
        Some(l) => match l.as_str() {
            Some(s) => String::from_str(s),
            None => {
                return Err(String::from_str("invalid type: expected a string"));
            },
        },
    };
    let partitioning = match v.get("partitioning") {
        None => None,
        Some(p) => {
            if p.is_null() {
                None
            } else {
                match decode_partitioning(p) {
                    Ok(x) => Some(x),
                    Err(e) => {
                        return Err(e);
                    },
                }
            }
        },
    };
    Ok(MnmlDatasetStorage { version, format: MnmlStorageFormat::Parquet, location, partitioning })
}

/// The extensions that hold MNML dataset storage: vendor `MNML` and storage-shaped JSON.
pub open spec fn storage_exts(exts: Seq<CustomExtension>) -> Seq<CustomExtension> {
    exts.filter(is_storage_ext())
}

/// The predicate "vendor `MNML` and storage-shaped JSON".
pub open spec fn is_storage_ext() -> spec_fn(CustomExtension) -> bool {
    |e: CustomExtension| e.vendor_name == Vendor::Mnml && spec_is_storage(ext_json(e))
}

/// The predicate "storage data that does not read as storage".
pub open spec fn is_bad_storage() -> spec_fn(CustomExtension) -> bool {
    |e: CustomExtension| !storage_ok(ext_json(e)->0)
}

/// The index of the first MNML storage extension that does not read as storage.
pub open spec fn first_bad_storage_ext(exts: Seq<CustomExtension>) -> int {
    crate::seqs::first_match(storage_exts(exts), is_bad_storage())
}

/// Parse all MNML storage extension payloads from a `custom_extensions` list.
pub fn parse_mnml_dataset_storage_extensions(extensions: &[CustomExtension]) -> (res: Result<
    Vec<MnmlDatasetStorage>,
    String,
>)
    ensures
        res is Ok <==> forall|i: int|
            0 <= i < storage_exts(extensions@).len() ==> storage_ok(
                #[trigger] ext_json(storage_exts(extensions@)[i])->0,
            ),
        res matches Ok(out) ==> out@.len() == storage_exts(extensions@).len() && forall|i: int|
            0 <= i < out@.len() ==> storage_matches(
                #[trigger] out@[i],
                ext_json(storage_exts(extensions@)[i])->0,
            ),
        res matches Err(m) ==> first_bad_storage_ext(extensions@) >= 0 && m@ == storage_error(
            ext_json(storage_exts(extensions@)[first_bad_storage_ext(extensions@)])->0,
        ),
{
    let ghost bad = is_bad_storage();
    let ghost p = is_storage_ext();
    let mut out: Vec<MnmlDatasetStorage> = Vec::new();
    let mut i: usize = 0;
    while i < extensions.len()
        invariant
            p == is_storage_ext(),
            bad == is_bad_storage(),
            i <= extensions@.len(),
            out@.len() == extensions@.take(i as int).filter(p).len(),
            forall|j: int|
                0 <= j < out@.len() ==> storage_matches(
                    #[trigger] out@[j],
                    ext_json(extensions@.take(i as int).filter(p)[j])->0,
                ),
            forall|j: int|
                0 <= j < extensions@.take(i as int).filter(p).len() ==> storage_ok(
                    #[trigger] ext_json(extensions@.take(i as int).filter(p)[j])->0,
                ),
        decreases extensions@.len() - i,
    {
        let ghost prev = extensions@.take(i as int).filter(p);
        proof {
            lemma_filter_step(extensions@, p, i as int);
        }
        let e = &extensions[i];
        let parsed = parse_json_text(e.data.as_str());
        if e.vendor_name == Vendor::Mnml && is_storage_value(&parsed) {
            proof {
                assert(p(*e));
                assert(extensions@.take(i + 1).filter(p)[prev.len() as int] == *e);
            }
            let j = match &parsed {
                Ok(j) => j,
                // not reached: storage-shaped data is valid JSON
                Err(_) => {
                    return Err(String::new());
                },
            };
            match decode_storage(j) {
                Ok(s) => {
                    out.push(s);
                },
                Err(err) => {
                    proof {
                        let all = extensions@.filter(p);
                        lemma_filter_prefix(extensions@, p, i + 1);
                        assert(all[prev.len() as int] == *e);
                        assert forall|j: int| 0 <= j < prev.len() implies !bad(#[trigger] all[j]) by {
                            assert(extensions@.take(i + 1).filter(p)[j] == prev[j]);
                            assert(storage_ok(ext_json(prev[j])->0));
                        }
                        assert(bad(*e));
                        crate::seqs::lemma_first_match_at(all, bad, prev.len() as int);
                    }
                    return Err(err);
                },
            }
        }
        i = i + 1;
    }
    proof {
        lemma_take_all(extensions@);
    }
    Ok(out)
}

} // verus!
