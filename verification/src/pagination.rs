//! Normalization and pagination: shape a document into an array, drop a
//! leading prefix, and truncate to a maximum length. The whole query pipeline
//! stands at the end.

use vstd::prelude::*;

use crate::error::NaviError;
use crate::select::select_f;
use crate::select::select_seq;
use crate::value::members_of;
use crate::value::seq_view;
use crate::value::JsonData;
use crate::value::JsonValue;

verus! {

/// The elements left after dropping the first `n`: the tail from index `n`,
/// empty when `n` reaches past the end.
pub open spec fn skip_spec(s: Seq<JsonData>, n: nat) -> Seq<JsonData> {
    if n <= s.len() {
        s.skip(n as int)
    } else {
        Seq::empty()
    }
}

/// The first `m` elements, the whole sequence when `m` reaches past the end.
pub open spec fn limit_spec(s: Seq<JsonData>, m: nat) -> Seq<JsonData> {
    if m <= s.len() {
        s.take(m as int)
    } else {
        s
    }
}

/// An array stays itself; any other value is wrapped into a one-element array.
pub open spec fn normalize_spec(v: JsonData) -> JsonData {
    match v {
        JsonData::Arr(_) => v,
        _ => JsonData::Arr(seq![v]),
    }
}

/// Drop the first `skip` elements of an array, cloning the rest in order.
/// Anything but an array has no elements and yields an empty array.
#[verifier::loop_isolation(false)]
pub fn skip_n(obj: JsonValue, skip: &u32) -> (r: Result<JsonValue, NaviError>)
    ensures
        (r matches Ok(v) && v@ == JsonData::Arr(skip_spec(members_of(obj@), *skip as nat))),
{
    let mut result: Vec<JsonValue> = Vec::new();
    match obj {
        JsonValue::Arr(elems) => {
            let k: usize = *skip as usize;
            let mut i: usize = 0;
            while i < elems.len()
                invariant
                    i <= elems@.len(),
                    seq_view(result@) == (if i <= k {
                        Seq::<JsonData>::empty()
                    } else {
                        seq_view(elems@).subrange(k as int, i as int)
                    }),
                decreases elems@.len() - i,
            {
                if i >= k {
                    let ghost prev = result@;
                    let e = elems[i].deep_clone();
                    result.push(e);
                    proof {
                        assert(seq_view(result@) =~= seq_view(prev).push(elems@[i as int]@));
                        assert(seq_view(result@) =~= seq_view(elems@).subrange(k as int, i + 1));
                    }
                }
                i += 1;
            }
            proof {
                if k < elems@.len() {
                    assert(seq_view(elems@).subrange(k as int, elems@.len() as int) =~= seq_view(
                        elems@,
                    ).skip(k as int));
                } else {
                    assert(skip_spec(seq_view(elems@), k as nat) =~= Seq::<JsonData>::empty());
                }
            }
            Ok(JsonValue::Arr(result))
        },
        _ => {
            proof {
                assert(members_of(obj@) =~= Seq::<JsonData>::empty());
                assert(skip_spec(Seq::<JsonData>::empty(), *skip as nat) =~= Seq::<
                    JsonData,
                >::empty());
                assert(seq_view(result@) =~= Seq::<JsonData>::empty());
            }
            Ok(JsonValue::Arr(result))
        },
    }
}

/// Keep at most the first `limit` elements of an array, cloning them in order.
/// Anything but an array has no elements and yields an empty array.
#[verifier::loop_isolation(false)]
pub fn limit_n(obj: JsonValue, limit: &u32) -> (r: Result<JsonValue, NaviError>)
    ensures
        (r matches Ok(v) && v@ == JsonData::Arr(limit_spec(members_of(obj@), *limit as nat))),
{
    let mut result: Vec<JsonValue> = Vec::new();
    match obj {
        JsonValue::Arr(elems) => {
            let m: usize = *limit as usize;
            let mut i: usize = 0;
            proof {
                assert(seq_view(result@) =~= seq_view(elems@).take(0));
            }
            while i < elems.len()
                invariant
                    i <= elems@.len(),
                    seq_view(result@) == (if i <= m {
                        seq_view(elems@).take(i as int)
                    } else {
                        seq_view(elems@).take(m as int)
                    }),
                decreases elems@.len() - i,
            {
                if i < m {
                    let ghost prev = result@;
                    let e = elems[i].deep_clone();
                    result.push(e);
                    proof {
                        assert(seq_view(result@) =~= seq_view(prev).push(elems@[i as int]@));
                        assert(seq_view(result@) =~= seq_view(elems@).take(i + 1));
                    }
                }
                i += 1;
            }
            proof {
                if m >= elems@.len() {
                    assert(seq_view(elems@).take(elems@.len() as int) =~= seq_view(elems@));
                }
            }
            Ok(JsonValue::Arr(result))
        },
        _ => {
            proof {
                assert(members_of(obj@) =~= Seq::<JsonData>::empty());
                assert(limit_spec(Seq::<JsonData>::empty(), *limit as nat) =~= Seq::<
                    JsonData,
                >::empty());
                assert(seq_view(result@) =~= Seq::<JsonData>::empty());
            }
            Ok(JsonValue::Arr(result))
        },
    }
}

/// Give a loaded document the shape the pipeline works on: an array stays
/// itself, and a bare value is wrapped into a one-element array.
pub fn normalize(v: JsonValue) -> (r: JsonValue)
    ensures
        r@ == normalize_spec(v@),
{
    if v.is_array() {
        v
    } else {
        let ghost gv = v@;
        let mut elems: Vec<JsonValue> = Vec::new();
        elems.push(v);
        proof {
            assert(seq_view(elems@) =~= seq![gv]);
        }
        JsonValue::Arr(elems)
    }
}

/// The whole query pipeline over a loaded document: normalize its shape,
/// select the requested field paths, drop the first `skip` elements, and keep
/// at most `limit` of the rest.
pub fn run_query(v: JsonValue, filters: &str, skip: u32, limit: u32) -> (r: Result<
    JsonValue,
    NaviError,
>)
    ensures
        (r matches Ok(out) && out@ == JsonData::Arr(
            limit_spec(
                skip_spec(
                    select_seq(members_of(normalize_spec(v@)), filters@),
                    skip as nat,
                ),
                limit as nat,
            ),
        )),
{
    let shaped = normalize(v);
    let selected = match select_f(shaped, filters) {
        Ok(x) => x,
        Err(e) => {
            return Err(e);
        },
    };
    let skipped = match skip_n(selected, &skip) {
        Ok(x) => x,
        Err(e) => {
            return Err(e);
        },
    };
    match limit_n(skipped, &limit) {
        Ok(x) => Ok(x),
        Err(e) => Err(e),
    }
}

} // verus!
