//! General laws of the transformation stages, stated over the models that the
//! stages' own contracts use.

use vstd::prelude::*;

use crate::pagination::limit_spec;
use crate::pagination::normalize_spec;
use crate::pagination::skip_spec;
use crate::select::find_in;
use crate::select::not_found_text;
use crate::select::select_obj;
use crate::select::select_seq;
use crate::text::split_on;
use crate::value::keys_unique;
use crate::value::lemma_insert_keys_unique;
use crate::value::JsonData;

verus! {

/// Load normalization: a value that is already an array stays itself; any
/// other value becomes a one-element array holding it.
pub proof fn lemma_load_normalization(v: JsonData)
    ensures
        v is Arr ==> normalize_spec(v) == v,
        !(v is Arr) ==> normalize_spec(v) == JsonData::Arr(seq![v]),
{
}

/// Skip boundary: for a sequence of length L and a skip value n, the result
/// has max(0, L - n) elements, the tail of the sequence in order; skipping
/// nothing, and then nothing again, is the identity.
pub proof fn lemma_skip_boundary(s: Seq<JsonData>, n: nat)
    ensures
        skip_spec(s, n).len() == (if n <= s.len() {
            s.len() - n
        } else {
            0
        }),
        forall|i: int| 0 <= i < skip_spec(s, n).len() ==> skip_spec(s, n)[i] == s[i + n],
        skip_spec(skip_spec(s, 0), 0) == s,
{
    assert(skip_spec(s, 0) =~= s);
}

/// Limit boundary: for a sequence of length L and a limit value m, the result
/// has min(L, m) elements, the head of the sequence in order; limiting to the
/// length returns the sequence unchanged.
pub proof fn lemma_limit_boundary(s: Seq<JsonData>, m: nat)
    ensures
        limit_spec(s, m).len() == (if m <= s.len() {
            m
        } else {
            s.len()
        }),
        forall|i: int| 0 <= i < limit_spec(s, m).len() ==> limit_spec(s, m)[i] == s[i],
        limit_spec(s, s.len()) == s,
{
    assert(limit_spec(s, s.len()) =~= s);
}

/// The selector builds objects whose keys are unique, however the field paths
/// repeat or share first segments.
pub proof fn lemma_select_obj_keys_unique(elem: JsonData, paths: Seq<Seq<char>>)
    ensures
        keys_unique(select_obj(elem, paths)),
    decreases paths.len(),
{
    if paths.len() > 0 {
        lemma_select_obj_keys_unique(elem, paths.drop_last());
        let prev = select_obj(elem, paths.drop_last());
        let p = paths.last();
        match find_in(elem, split_on(p, '.')) {
            Some(kv) => lemma_insert_keys_unique(prev, kv.0, kv.1),
            None => lemma_insert_keys_unique(prev, p, JsonData::Str(not_found_text())),
        }
    }
}

/// Selection yields at most one output element per input element.
pub proof fn lemma_select_length(elems: Seq<JsonData>, filters: Seq<char>)
    ensures
        select_seq(elems, filters).len() <= elems.len(),
    decreases elems.len(),
{
    if elems.len() > 0 {
        lemma_select_length(elems.drop_last(), filters);
    }
}

/// Identity: skipping zero elements is the identity, and so is limiting to
/// the length of the sequence or more.
pub proof fn lemma_pagination_identity(s: Seq<JsonData>, m: nat)
    requires
        m >= s.len(),
    ensures
        skip_spec(s, 0) == s,
        limit_spec(s, m) == s,
{
    assert(skip_spec(s, 0) =~= s);
    if m <= s.len() {
        assert(limit_spec(s, m) =~= s);
    }
}

} // verus!
