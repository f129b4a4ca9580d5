//! Flattening: recursive conversion of a structured value into dotted
//! path leaves, and the scalar conversion of one leaf into a namespace
//! value.

use vstd::prelude::*;
use crate::error::CoreError;
use crate::strings::{dec_str, usize_to_string};
use crate::value::{Scalar, ScalarS, TreeValue, TreeS, tree_dv, tree_clone, tree_is_scalar,
    fields_dv, trees_dv, lemma_fields_dv, lemma_trees_dv};

verus! {

broadcast use vstd::std_specs::vec::group_vec_axioms, vstd::seq::group_seq_axioms;

/// The dotted-path leaves of a structured value, rooted at `prefix`.
/// Objects flatten field by field, arrays element by element with the
/// index as the path segment; a scalar is one leaf at the prefix
/// itself.
pub open spec fn flat_pairs(t: TreeS, prefix: Seq<char>) -> Seq<(Seq<char>, TreeS)>
    decreases t, 0int,
{
    match t {
        TreeS::Object(fs) => flat_fields(fs, prefix),
        TreeS::Array(ts) => flat_elems(ts, prefix, 0),
        _ => seq![(prefix, t)],
    }
}

pub open spec fn flat_fields(fs: Seq<(Seq<char>, TreeS)>, prefix: Seq<char>)
    -> Seq<(Seq<char>, TreeS)>
    decreases fs, 1int,
    via flat_fields_dec
{
    if fs.len() == 0 {
        Seq::empty()
    } else {
        flat_pairs(fs[0].1, prefix + "."@ + fs[0].0)
            + flat_fields(fs.subrange(1, fs.len() as int), prefix)
    }
}

#[via_fn]
proof fn flat_fields_dec(fs: Seq<(Seq<char>, TreeS)>, prefix: Seq<char>) {
    if fs.len() > 0 {
        assert(decreases_to!(fs => fs[0]));
        assert(decreases_to!(fs => fs[0].1));
        assert(decreases_to!(fs => fs.subrange(1, fs.len() as int)));
    }
}

pub open spec fn flat_elems(ts: Seq<TreeS>, prefix: Seq<char>, idx: int)
    -> Seq<(Seq<char>, TreeS)>
    decreases ts, 1int,
    via flat_elems_dec
{
    if ts.len() == 0 {
        Seq::empty()
    } else {
        flat_pairs(ts[0], prefix + "."@ + dec_str(idx))
            + flat_elems(ts.subrange(1, ts.len() as int), prefix, idx + 1)
    }
}

#[via_fn]
proof fn flat_elems_dec(ts: Seq<TreeS>, prefix: Seq<char>, idx: int) {
    if ts.len() > 0 {
        assert(decreases_to!(ts => ts[0]));
        assert(decreases_to!(ts => ts.subrange(1, ts.len() as int)));
    }
}

/// Flattens a structured value into its dotted-path leaves.
pub fn value_kv_pairs_deep(t: &TreeValue, prefix: &str) -> (r: Vec<(String, TreeValue)>)
    ensures
        fields_dv(r@) =~= flat_pairs(tree_dv(*t), prefix@),
    decreases *t,
{
    match t {
        TreeValue::Object(fs) => {
            proof {
                lemma_fields_dv(fs@);
            }
            let n: usize = fs.len();
            let mut out: Vec<(String, TreeValue)> = Vec::new();
            let mut i: usize = 0;
            proof {
                assert(fields_dv(out@).len() == 0);
                assert(fields_dv(fs@).subrange(0, n as int) =~= fields_dv(fs@));
                assert(fields_dv(out@) + flat_fields(fields_dv(fs@), prefix@)
                    =~= flat_fields(fields_dv(fs@), prefix@));
            }
            #[verifier::loop_isolation(false)]
            while i < n
                invariant
                    i <= n,
                    flat_fields(fields_dv(fs@), prefix@)
                        =~= fields_dv(out@)
                            + flat_fields(fields_dv(fs@).subrange(i as int, n as int), prefix@),
                decreases n - i,
            {
                let mut key: String = String::from_str(prefix);
                key.append(".");
                key.append(fs[i].0.as_str());
                proof {
                    assert(decreases_to!(fs => fs@));
                    assert(decreases_to!(fs@ => fs@[i as int]));
                    assert(decreases_to!(fs@[i as int] => fs@[i as int].1));
                }
                let mut sub: Vec<(String, TreeValue)> = value_kv_pairs_deep(&fs[i].1, key.as_str());
                let ghost old_out = out@;
                let ghost sub0 = sub@;
                out.append(&mut sub);
                proof {
                    let f = fields_dv(fs@);
                    let suf = f.subrange(i as int, n as int);
                    assert(suf[0] == f[i as int]);
                    assert(suf.subrange(1, suf.len() as int)
                        =~= f.subrange(i + 1, n as int));
                    lemma_fields_dv(out@);
                    lemma_fields_dv(old_out);
                    lemma_fields_dv(sub0);
                    assert(out@ =~= old_out + sub0);
                    assert(fields_dv(out@) =~= fields_dv(old_out) + fields_dv(sub0));
                    assert(fields_dv(out@)
                        =~= fields_dv(old_out) + flat_pairs(tree_dv(fs@[i as int].1), key@));
                    assert(flat_fields(f, prefix@)
                        =~= fields_dv(out@)
                            + flat_fields(f.subrange(i + 1, n as int), prefix@));
                }
                i = i + 1;
            }
            proof {
                assert(fields_dv(fs@).subrange(n as int, n as int).len() == 0);
            }
            out
        },
        TreeValue::Array(ts) => {
            proof {
                lemma_trees_dv(ts@);
            }
            let n: usize = ts.len();
            let mut out: Vec<(String, TreeValue)> = Vec::new();
            let mut i: usize = 0;
            proof {
                assert(fields_dv(out@).len() == 0);
                assert(trees_dv(ts@).subrange(0, n as int) =~= trees_dv(ts@));
                assert(fields_dv(out@) + flat_elems(trees_dv(ts@), prefix@, 0)
                    =~= flat_elems(trees_dv(ts@), prefix@, 0));
            }
            #[verifier::loop_isolation(false)]
            while i < n
                invariant
                    i <= n,
                    flat_elems(trees_dv(ts@), prefix@, 0)
                        =~= fields_dv(out@)
                            + flat_elems(trees_dv(ts@).subrange(i as int, n as int), prefix@,
                                i as int),
                decreases n - i,
            {
                let mut key: String = String::from_str(prefix);
                key.append(".");
                let seg: String = usize_to_string(i);
                key.append(seg.as_str());
                proof {
                    assert(decreases_to!(ts => ts@));
                    assert(decreases_to!(ts@ => ts@[i as int]));
                }
                let mut sub: Vec<(String, TreeValue)> = value_kv_pairs_deep(&ts[i], key.as_str());
                let ghost old_out = out@;
                let ghost sub0 = sub@;
                out.append(&mut sub);
                proof {
                    let f = trees_dv(ts@);
                    let suf = f.subrange(i as int, n as int);
                    assert(suf[0] == f[i as int]);
                    assert(suf.subrange(1, suf.len() as int)
                        =~= f.subrange(i + 1, n as int));
                    lemma_fields_dv(out@);
                    lemma_fields_dv(old_out);
                    lemma_fields_dv(sub0);
                    assert(out@ =~= old_out + sub0);
                    assert(fields_dv(out@) =~= fields_dv(old_out) + fields_dv(sub0));
                    assert(fields_dv(out@)
                        =~= fields_dv(old_out) + flat_pairs(f[i as int], key@));
                    assert(flat_elems(f, prefix@, 0)
                        =~= fields_dv(out@)
                            + flat_elems(f.subrange(i + 1, n as int), prefix@, i + 1));
                }
                i = i + 1;
            }
            proof {
                assert(trees_dv(ts@).subrange(n as int, n as int).len() == 0);
            }
            out
        },
        _ => {
            let mut out: Vec<(String, TreeValue)> = Vec::new();
            out.push((String::from_str(prefix), tree_clone(t)));
            proof {
                lemma_fields_dv(out@);
                assert(fields_dv(out@) =~= seq![(prefix@, tree_dv(*t))]);
            }
            out
        },
    }
}

/// The namespace scalar a leaf maps to.  Only meaningful for scalar
/// leaves; arrays and objects never reach the conversion.
pub open spec fn leaf_value(t: TreeS) -> ScalarS {
    match t {
        TreeS::Null => ScalarS::Null,
        TreeS::Bool(b) => ScalarS::Bool(b),
        TreeS::Int(i) => ScalarS::Int(i),
        TreeS::Str(s) => ScalarS::Str(s),
        _ => ScalarS::Null,
    }
}

/// Converts one leaf into a namespace scalar.  A structured value
/// reaching this conversion is a builder defect: it fails loudly.
pub fn leaf_to_value(t: &TreeValue) -> (r: Result<Scalar, CoreError>)
    ensures
        match r {
            Ok(v) => tree_is_scalar(tree_dv(*t)) && crate::value::value_dv(v)
                == leaf_value(tree_dv(*t)),
            Err(e) => !tree_is_scalar(tree_dv(*t)) && e == CoreError::Conversion,
        },
{
    match t {
        TreeValue::Null => Ok(Scalar::Null),
        TreeValue::Bool(b) => Ok(Scalar::Bool(*b)),
        TreeValue::Int(i) => Ok(Scalar::Int(*i)),
        TreeValue::Str(s) => Ok(Scalar::Str(s.clone())),
        TreeValue::Array(_) => Err(CoreError::Conversion),
        TreeValue::Object(_) => Err(CoreError::Conversion),
    }
}

} // verus!
