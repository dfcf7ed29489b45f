//! The selector: resolve dot-separated field paths against elements and build
//! pruned objects that keep only the requested fields.

use vstd::prelude::*;

use crate::error::NaviError;
use crate::text::lemma_split_at;
use crate::text::lemma_split_len;
use crate::text::lemma_split_whole;
use crate::text::split_on;
use crate::text::split_str;
use crate::text::views_of;
use crate::value::fields_view;
use crate::value::get_of;
use crate::value::insert_fields;
use crate::value::members_of;
use crate::value::obj_insert;
use crate::value::seq_view;
use crate::value::JsonData;
use crate::value::JsonValue;

verus! {

/// Resolution of a list of path segments against a value. A single segment is
/// a plain keyed read, where a null value counts as absent. With more segments
/// the first keys a step down, and a found remainder is wrapped back into a
/// one-member object, so the reconstructed nesting survives.
pub open spec fn find_in(v: JsonData, segs: Seq<Seq<char>>) -> Option<(Seq<char>, JsonData)>
    decreases segs.len(),
{
    let key = segs[0];
    let w = get_of(v, key);
    if w == JsonData::Null {
        None
    } else if segs.len() <= 1 {
        Some((key, w))
    } else {
        match find_in(w, segs.drop_first()) {
            Some(kv) => Some((key, JsonData::Obj(seq![(kv.0, kv.1)]))),
            None => None,
        }
    }
}

/// Resolution of a field path as written, its segments split on dots.
pub open spec fn find_path(v: JsonData, field: Seq<char>) -> Option<(Seq<char>, JsonData)> {
    find_in(v, split_on(field, '.'))
}

/// The not-found sentinel.
pub open spec fn not_found_text() -> Seq<char> {
    "not found"@
}

/// The object built for one element: the field paths are applied left to
/// right; a resolved path stores its reconstructed subtree under the path's
/// first segment, an unresolved one stores the sentinel under the whole path,
/// and a later path sharing a first segment overwrites the earlier subtree.
pub open spec fn select_obj(elem: JsonData, paths: Seq<Seq<char>>) -> Seq<(Seq<char>, JsonData)>
    decreases paths.len(),
{
    if paths.len() == 0 {
        Seq::empty()
    } else {
        let prev = select_obj(elem, paths.drop_last());
        let p = paths.last();
        match find_in(elem, split_on(p, '.')) {
            Some(kv) => insert_fields(prev, kv.0, kv.1),
            None => insert_fields(prev, p, JsonData::Str(not_found_text())),
        }
    }
}

/// The selected sequence: one pruned object per element, in the original
/// order; an element whose object stays without members is omitted.
pub open spec fn select_seq(elems: Seq<JsonData>, filters: Seq<char>) -> Seq<JsonData>
    decreases elems.len(),
{
    if elems.len() == 0 {
        Seq::empty()
    } else {
        let prev = select_seq(elems.drop_last(), filters);
        let o = select_obj(elems.last(), split_on(filters, ','));
        if o.len() > 0 {
            prev.push(JsonData::Obj(o))
        } else {
            prev
        }
    }
}

/// Resolve one dot-separated field path against an element, returning the
/// top key and the reconstructed value.
#[verifier::loop_isolation(false)]
pub fn find_recursive(obj: &JsonValue, field: &str) -> (r: Option<(String, JsonValue)>)
    ensures
        match r {
            Some(kv) => find_path(obj@, field@) == Some((kv.0@, kv.1@)),
            None => find_path(obj@, field@) is None,
        },
    decreases field@.len(),
{
    let n: usize = field.unicode_len();
    let mut d: usize = 0;
    while d < n && field.get_char(d) != '.'
        invariant
            d <= n,
            forall|j: int| 0 <= j < d ==> field@[j] != '.',
        decreases n - d,
    {
        d += 1;
    }
    if d == n {
        // no dot: a plain keyed read
        proof {
            lemma_split_whole(field@, '.');
        }
        match obj.get_field(field) {
            Some(v) => {
                if v.is_null() {
                    None
                } else {
                    let key = field.to_owned();
                    let val = v.deep_clone();
                    Some((key, val))
                }
            },
            None => None,
        }
    } else {
        // first dot at d: key a step down and recurse on the remainder
        proof {
            lemma_split_at(field@, '.', d as int);
            lemma_split_len(field@.skip(d as int + 1), '.');
        }
        let f0 = field.substring_char(0, d);
        let rest = field.substring_char(d + 1, n);
        proof {
            assert(field@.subrange(0, d as int) =~= field@.take(d as int));
            assert(field@.subrange(d as int + 1, n as int) =~= field@.skip(d as int + 1));
            assert(split_on(field@, '.').drop_first() =~= split_on(field@.skip(d as int + 1), '.'));
        }
        match obj.get_field(f0) {
            Some(v) => {
                if v.is_null() {
                    None
                } else {
                    match find_recursive(v, rest) {
                        Some((k, w)) => {
                            let ghost gk = k@;
                            let ghost gw = w@;
                            let mut fields: Vec<(String, JsonValue)> = Vec::new();
                            fields.push((k, w));
                            proof {
                                assert(fields_view(fields@) =~= seq![(gk, gw)]);
                            }
                            Some((f0.to_owned(), JsonValue::Obj(fields)))
                        },
                        None => None,
                    }
                }
            },
            None => None,
        }
    }
}

/// Select fields from every element of an array: each element becomes an
/// object holding the requested field paths, resolved paths under their first
/// segment and unresolved ones as the sentinel under the whole path; elements
/// whose object stays empty are omitted. Anything but an array has no
/// elements and yields an empty array.
#[verifier::loop_isolation(false)]
pub fn select_f(obj: JsonValue, filters: &str) -> (r: Result<JsonValue, NaviError>)
    ensures
        (r matches Ok(v) && v@ == JsonData::Arr(select_seq(members_of(obj@), filters@))),
{
    let paths = split_str(filters, ',');
    let mut temp_arr: Vec<JsonValue> = Vec::new();
    match obj {
        JsonValue::Arr(elems) => {
            let mut i: usize = 0;
            proof {
                assert(seq_view(elems@).take(0) =~= Seq::<JsonData>::empty());
                assert(seq_view(temp_arr@) =~= Seq::<JsonData>::empty());
            }
            while i < elems.len()
                invariant
                    i <= elems@.len(),
                    seq_view(temp_arr@) == select_seq(seq_view(elems@).take(i as int), filters@),
                decreases elems@.len() - i,
            {
                let elem = &elems[i];
                let mut temp_obj: Vec<(String, JsonValue)> = Vec::new();
                let mut j: usize = 0;
                proof {
                    assert(views_of(paths@).take(0) =~= Seq::<Seq<char>>::empty());
                    assert(fields_view(temp_obj@) =~= Seq::<(Seq<char>, JsonData)>::empty());
                }
                while j < paths.len()
                    invariant
                        j <= paths@.len(),
                        fields_view(temp_obj@) == select_obj(
                            elem@,
                            views_of(paths@).take(j as int),
                        ),
                    decreases paths@.len() - j,
                {
                    let field = &paths[j];
                    match find_recursive(elem, field.as_str()) {
                        Some((k, v)) => {
                            obj_insert(&mut temp_obj, k, v);
                        },
                        None => {
                            obj_insert(
                                &mut temp_obj,
                                field.clone(),
                                JsonValue::Str("not found".to_owned()),
                            );
                        },
                    }
                    proof {
                        assert(views_of(paths@).take(j + 1).drop_last() =~= views_of(
                            paths@,
                        ).take(j as int));
                        assert(views_of(paths@).take(j + 1).last() == paths@[j as int]@);
                    }
                    j += 1;
                }
                proof {
                    assert(views_of(paths@).take(paths@.len() as int) =~= views_of(paths@));
                    assert(seq_view(elems@).take(i + 1).drop_last() =~= seq_view(elems@).take(
                        i as int,
                    ));
                    assert(seq_view(elems@).take(i + 1).last() == elems@[i as int]@);
                }
                if temp_obj.len() > 0 {
                    let ghost gobj = fields_view(temp_obj@);
                    let ghost prev_arr = temp_arr@;
                    temp_arr.push(JsonValue::Obj(temp_obj));
                    proof {
                        assert(seq_view(temp_arr@) =~= seq_view(prev_arr).push(
                            JsonData::Obj(gobj),
                        ));
                    }
                }
                i += 1;
            }
            proof {
                assert(seq_view(elems@).take(elems@.len() as int) =~= seq_view(elems@));
            }
            Ok(JsonValue::Arr(temp_arr))
        },
        _ => {
            proof {
                assert(members_of(obj@) =~= Seq::<JsonData>::empty());
                assert(seq_view(temp_arr@) =~= Seq::<JsonData>::empty());
            }
            Ok(JsonValue::Arr(temp_arr))
        },
    }
}

} // verus!
