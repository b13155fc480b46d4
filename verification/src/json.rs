//! A plain model of JSON values.
//!
//! The pipeline reads provider JSON through this type: numbers carry either
//! an exact integer or a fixed-point reading in millionths, so every field
//! the logic inspects is a plain value. The shape normalizer collapses an
//! arbitrary envelope into a flat list of record candidates.

use vstd::prelude::*;

verus! {

/// A JSON number. A non-integer is carried as millionths, rounded to
/// nearest by the boundary that built the value; a number representable
/// neither way is `Big`.
#[derive(Clone, Copy, PartialEq, Eq, Structural, Debug)]
pub enum JsonNum {
    Int(i64),
    Frac(i64),
    Big,
}

/// A JSON value with plain contents.
#[derive(Debug)]
pub enum JsonValue {
    Null,
    Bool(bool),
    Num(JsonNum),
    Str(String),
    Arr(Vec<JsonValue>),
    Obj(Vec<(String, JsonValue)>),
}

/// Index of the first field named `key`, or -1.
pub open spec fn key_index(fs: Seq<(String, JsonValue)>, key: Seq<char>) -> int
    decreases fs.len(),
{
    if fs.len() == 0 {
        -1
    } else if fs[0].0@ == key {
        0
    } else {
        let r: int = key_index(fs.drop_first(), key);
        if r < 0 {
            -1
        } else {
            r + 1
        }
    }
}

pub proof fn lemma_key_index_found(fs: Seq<(String, JsonValue)>, key: Seq<char>, i: int)
    requires
        0 <= i < fs.len(),
        fs[i].0@ == key,
        forall|j: int| 0 <= j < i ==> (#[trigger] fs[j]).0@ != key,
    ensures
        key_index(fs, key) == i,
    decreases fs.len(),
{
    if i > 0 {
        lemma_key_index_found(fs.drop_first(), key, i - 1);
    }
}

pub proof fn lemma_key_index_missing(fs: Seq<(String, JsonValue)>, key: Seq<char>)
    requires
        forall|j: int| 0 <= j < fs.len() ==> (#[trigger] fs[j]).0@ != key,
    ensures
        key_index(fs, key) == -1,
    decreases fs.len(),
{
    if fs.len() > 0 {
        lemma_key_index_missing(fs.drop_first(), key);
    }
}

/// First field named `key`, if any.
pub open spec fn obj_lookup(fs: Seq<(String, JsonValue)>, key: Seq<char>) -> Option<JsonValue> {
    if key_index(fs, key) >= 0 {
        Some(fs[key_index(fs, key)].1)
    } else {
        None
    }
}

/// Finds the first field named `key` and returns its index.
pub fn find_key(fs: &Vec<(String, JsonValue)>, key: &String) -> (r: Option<usize>)
    ensures
        match r {
            Some(i) => i < fs@.len() && key_index(fs@, key@) == i,
            None => key_index(fs@, key@) == -1,
        },
{
    let mut i: usize = 0;
    while i < fs.len()
        invariant
            i <= fs@.len(),
            forall|j: int| 0 <= j < i ==> (#[trigger] fs@[j]).0@ != key@,
        decreases fs@.len() - i,
    {
        if fs[i].0 == *key {
            proof {
                lemma_key_index_found(fs@, key@, i as int);
            }
            return Some(i);
        }
        i = i + 1;
    }
    proof {
        lemma_key_index_missing(fs@, key@);
    }
    None
}

/// Index of the field selected by the ordered wrapper-key list, or -1.
pub open spec fn wrapper_key_index(fs: Seq<(String, JsonValue)>) -> int {
    if key_index(fs, "items"@) >= 0 {
        key_index(fs, "items"@)
    } else if key_index(fs, "results"@) >= 0 {
        key_index(fs, "results"@)
    } else if key_index(fs, "data"@) >= 0 {
        key_index(fs, "data"@)
    } else if key_index(fs, "records"@) >= 0 {
        key_index(fs, "records"@)
    } else if key_index(fs, "chart"@) >= 0 {
        key_index(fs, "chart"@)
    } else if key_index(fs, "values"@) >= 0 {
        key_index(fs, "values"@)
    } else if key_index(fs, "candles"@) >= 0 {
        key_index(fs, "candles"@)
    } else {
        -1
    }
}

/// The flat candidate list of a JSON value: an array is taken as it is; an
/// object is unwrapped through the first matching wrapper key, else it is
/// a single candidate; anything else is a single candidate.
pub open spec fn candidates_of(v: JsonValue) -> Seq<JsonValue>
    decreases v,
{
    match v {
        JsonValue::Arr(a) => a@,
        JsonValue::Obj(fs) => {
            let wi: int = wrapper_key_index(fs@);
            if 0 <= wi < fs@.len() {
                candidates_of(fs@[wi].1)
            } else {
                seq![JsonValue::Obj(fs)]
            }
        },
        other => seq![other],
    }
}

fn find_wrapper(fs: &Vec<(String, JsonValue)>) -> (r: Option<usize>)
    ensures
        match r {
            Some(i) => i < fs@.len() && wrapper_key_index(fs@) == i,
            None => wrapper_key_index(fs@) == -1,
        },
{
    let r0: Option<usize> = find_key(fs, &"items".to_owned());
    if let Some(i) = r0 {
        return Some(i);
    }
    let r1: Option<usize> = find_key(fs, &"results".to_owned());
    if let Some(i) = r1 {
        return Some(i);
    }
    let r2: Option<usize> = find_key(fs, &"data".to_owned());
    if let Some(i) = r2 {
        return Some(i);
    }
    let r3: Option<usize> = find_key(fs, &"records".to_owned());
    if let Some(i) = r3 {
        return Some(i);
    }
    let r4: Option<usize> = find_key(fs, &"chart".to_owned());
    if let Some(i) = r4 {
        return Some(i);
    }
    let r5: Option<usize> = find_key(fs, &"values".to_owned());
    if let Some(i) = r5 {
        return Some(i);
    }
    let r6: Option<usize> = find_key(fs, &"candles".to_owned());
    if let Some(i) = r6 {
        return Some(i);
    }
    None
}

/// Shape normalizer: collapses one JSON value into its flat, ordered list
/// of record candidates. Total: never fails on any input.
pub fn extract_candidates(v: JsonValue) -> (r: Vec<JsonValue>)
    ensures
        r@ == candidates_of(v),
    decreases v,
{
    match v {
        JsonValue::Arr(a) => a,
        JsonValue::Obj(mut fs) => {
            let found: Option<usize> = find_wrapper(&fs);
            match found {
                Some(i) => {
                    let pair: (String, JsonValue) = fs.remove(i);
                    extract_candidates(pair.1)
                },
                None => {
                    let mut out: Vec<JsonValue> = Vec::new();
                    out.push(JsonValue::Obj(fs));
                    proof {
                        assert(out@ =~= candidates_of(v));
                    }
                    out
                },
            }
        },
        other => {
            let mut out: Vec<JsonValue> = Vec::new();
            out.push(other);
            proof {
                assert(out@ =~= candidates_of(v));
            }
            out
        },
    }
}

} // verus!
