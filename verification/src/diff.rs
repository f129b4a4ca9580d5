//! The diff engine: which namespace entries changed, the structural
//! tree they encode into, and the scene and state actions read back
//! out of that tree.

use vstd::prelude::*;
use crate::action::{Action, ActionS, SceneDescriptor, SceneDescriptorS};
use crate::context::{EvaluationContext, ctx_lookup};
use crate::device::{DevicesState, DeviceS, find_by_path, shape_matches};
use crate::error::CoreError;
use crate::pointer::{parse_pointer, assign_spec, query_spec, query, triples_dv,
    parse_pointer_segments, assign};
use crate::value::{Scalar, ScalarS, TreeValue, TreeS, tree_dv, value_dv, value_clone,
    value_as_tree, value_to_tree};

verus! {

broadcast use vstd::std_specs::vec::group_vec_axioms, vstd::seq::group_seq_axioms;

/// The deep view of a (path, value) pair vector.
pub open spec fn vpairs_dv(s: Seq<(String, Scalar)>) -> Seq<(Seq<char>, ScalarS)> {
    Seq::new(s.len(), |i: int| (s[i].0@, value_dv(s[i].1)))
}

/// The entries of `fin` whose value differs from what `orig` holds at
/// the same path — exactly those, in `fin`'s order, values taken from
/// `fin`.
pub open spec fn diff_pairs(fin: Seq<(Seq<char>, ScalarS)>, orig: Seq<(Seq<char>, ScalarS)>)
    -> Seq<(Seq<char>, ScalarS)>
    decreases fin.len(),
{
    if fin.len() == 0 {
        Seq::empty()
    } else {
        (if ctx_lookup(orig, fin[0].0) != Some(fin[0].1) {
            seq![fin[0]]
        } else {
            Seq::empty()
        }) + diff_pairs(fin.subrange(1, fin.len() as int), orig)
    }
}

/// Computes the variable diff of one evaluation: every entry of the
/// final namespace whose value differs, by value equality, from the
/// original namespace's value at the same path.
pub fn diff_contexts(fin: &EvaluationContext, orig: &EvaluationContext)
    -> (r: Vec<(String, Scalar)>)
    ensures
        vpairs_dv(r@) =~= diff_pairs(fin@, orig@),
{
    let n: usize = fin.len();
    let mut out: Vec<(String, Scalar)> = Vec::new();
    let mut i: usize = 0;
    proof {
        assert(fin@.subrange(0, n as int) =~= fin@);
        assert(vpairs_dv(out@) + diff_pairs(fin@, orig@) =~= diff_pairs(fin@, orig@));
    }
    #[verifier::loop_isolation(false)]
    while i < n
        invariant
            i <= n,
            n == fin@.len(),
            diff_pairs(fin@, orig@)
                =~= vpairs_dv(out@) + diff_pairs(fin@.subrange(i as int, n as int), orig@),
        decreases n - i,
    {
        let ghost suf = fin@.subrange(i as int, n as int);
        proof {
            assert(suf[0] == fin@[i as int]);
            assert(suf.subrange(1, suf.len() as int) =~= fin@.subrange(i + 1, n as int));
        }
        if fin.entry_differs_from(i, orig) {
            let ghost out0 = out@;
            let key: String = fin.key_at(i).clone();
            let v: Scalar = value_clone(fin.value_at(i));
            out.push((key, v));
            proof {
                assert(vpairs_dv(out@) =~= vpairs_dv(out0) + seq![fin@[i as int]]);
            }
        }
        i = i + 1;
    }
    proof {
        assert(fin@.subrange(n as int, n as int).len() == 0);
    }
    out
}

/// The structural tree the diff encodes into: each diffed path
/// assigned into one nested tree, starting from null.
pub open spec fn diff_tree(pairs: Seq<(Seq<char>, ScalarS)>, t: TreeS) -> Option<TreeS>
    decreases pairs.len(),
{
    if pairs.len() == 0 {
        Some(t)
    } else {
        match parse_pointer(pairs[0].0) {
            None => None,
            Some(segs) => match assign_spec(t, segs, 0, value_as_tree(pairs[0].1)) {
                None => None,
                Some(t2) => diff_tree(pairs.subrange(1, pairs.len() as int), t2),
            },
        }
    }
}

/// Encodes the diff into one nested tree.
pub fn build_diff_tree(pairs: &Vec<(String, Scalar)>) -> (r: Result<TreeValue, CoreError>)
    ensures
        match r {
            Ok(t) => diff_tree(vpairs_dv(pairs@), TreeS::Null) == Some(tree_dv(t)),
            Err(e) => diff_tree(vpairs_dv(pairs@), TreeS::Null) is None
                && e == CoreError::DiffEncoding,
        },
{
    let ghost ps = vpairs_dv(pairs@);
    let n: usize = pairs.len();
    let mut t: TreeValue = TreeValue::Null;
    let mut i: usize = 0;
    proof {
        assert(ps.subrange(0, n as int) =~= ps);
    }
    #[verifier::loop_isolation(false)]
    while i < n
        invariant
            i <= n,
            n == ps.len(),
            diff_tree(ps, TreeS::Null)
                == diff_tree(ps.subrange(i as int, n as int), tree_dv(t)),
        decreases n - i,
    {
        let ghost suf = ps.subrange(i as int, n as int);
        proof {
            assert(suf[0] == ps[i as int]);
            assert(suf.subrange(1, suf.len() as int) =~= ps.subrange(i + 1, n as int));
        }
        let segs: Vec<String> = match parse_pointer_segments(pairs[i].0.as_str()) {
            Ok(s) => s,
            Err(e) => {
                return Err(e);
            },
        };
        let leaf: TreeValue = value_to_tree(&pairs[i].1);
        let t2: TreeValue = match assign(&t, &segs, 0, &leaf) {
            Ok(t2) => t2,
            Err(e) => {
                return Err(e);
            },
        };
        t = t2;
        i = i + 1;
    }
    proof {
        assert(ps.subrange(n as int, n as int).len() == 0);
    }
    Ok(t)
}

/// The scene activations a diff yields: for each `devices.*.*.scene`
/// match whose device resolves and whose leaf is a string, an
/// activation scoped to that one device.  An unresolved device or a
/// non-string leaf is skipped silently.
pub open spec fn scene_actions(
    ms: Seq<(Seq<char>, Seq<char>, TreeS)>,
    devices: Seq<DeviceS>,
) -> Seq<ActionS>
    decreases ms.len(),
{
    if ms.len() == 0 {
        Seq::empty()
    } else {
        (match find_by_path(devices, ms[0].0, ms[0].1) {
            Some(d) => match ms[0].2 {
                TreeS::Str(s) => seq![
                    ActionS::ActivateScene(SceneDescriptorS {
                        scene_id: s,
                        device_keys: Some(seq![d.key]),
                        group_keys: None,
                    }),
                ],
                _ => Seq::empty(),
            },
            None => Seq::empty(),
        }) + scene_actions(ms.subrange(1, ms.len() as int), devices)
    }
}

/// The state writes a diff yields: for each `devices.*.*.state` match
/// whose device resolves and whose new state passes the device's shape
/// validation, the device with its state wholly replaced.  An
/// unresolved device or a shape mismatch is skipped silently.
pub open spec fn state_actions(
    ms: Seq<(Seq<char>, Seq<char>, TreeS)>,
    devices: Seq<DeviceS>,
) -> Seq<ActionS>
    decreases ms.len(),
{
    if ms.len() == 0 {
        Seq::empty()
    } else {
        (match find_by_path(devices, ms[0].0, ms[0].1) {
            Some(d) => if shape_matches(ms[0].2, d.state) {
                seq![ActionS::SetDeviceState(DeviceS { state: ms[0].2, ..d })]
            } else {
                Seq::empty()
            },
            None => Seq::empty(),
        }) + state_actions(ms.subrange(1, ms.len() as int), devices)
    }
}

/// Translates the `scene` matches of a diff tree.
pub fn translate_scene_matches(
    ms: &Vec<(String, String, TreeValue)>,
    devices: &DevicesState,
) -> (r: Vec<Action>)
    ensures
        r.deep_view() =~= scene_actions(triples_dv(ms@), devices.deep_view()),
{
    let ghost tv = triples_dv(ms@);
    let n: usize = ms.len();
    let mut out: Vec<Action> = Vec::new();
    let mut i: usize = 0;
    proof {
        assert(tv.subrange(0, n as int) =~= tv);
        assert(out.deep_view() + scene_actions(tv, devices.deep_view())
            =~= scene_actions(tv, devices.deep_view()));
    }
    #[verifier::loop_isolation(false)]
    while i < n
        invariant
            i <= n,
            n == tv.len(),
            scene_actions(tv, devices.deep_view())
                =~= out.deep_view()
                    + scene_actions(tv.subrange(i as int, n as int), devices.deep_view()),
        decreases n - i,
    {
        let ghost suf = tv.subrange(i as int, n as int);
        proof {
            assert(suf[0] == tv[i as int]);
            assert(suf.subrange(1, suf.len() as int) =~= tv.subrange(i + 1, n as int));
        }
        match devices.get_by_path(ms[i].0.as_str(), ms[i].1.as_str()) {
            Some(device) => {
                match &ms[i].2 {
                    TreeValue::Str(s) => {
                        let ghost out0 = out@;
                        let mut keys: Vec<String> = Vec::new();
                        keys.push(device.key.clone());
                        let act = Action::ActivateScene(SceneDescriptor {
                            scene_id: s.clone(),
                            device_keys: Some(keys),
                            group_keys: None,
                        });
                        out.push(act);
                        proof {
                            assert(out.deep_view()
                                =~= Seq::new(out0.len(), |k: int| out0[k].deep_view())
                                    + seq![act.deep_view()]);
                            assert(keys.deep_view() =~= seq![device.key@]);
                            assert(find_by_path(devices.deep_view(), suf[0].0, suf[0].1)
                                == Some(device.deep_view()));
                            assert(act.deep_view() == scene_actions(suf,
                                devices.deep_view()).first());
                        }
                    },
                    _ => {},
                }
            },
            None => {},
        }
        i = i + 1;
    }
    proof {
        assert(tv.subrange(n as int, n as int).len() == 0);
    }
    out
}

/// Translates the `state` matches of a diff tree.
pub fn translate_state_matches(
    ms: &Vec<(String, String, TreeValue)>,
    devices: &DevicesState,
) -> (r: Vec<Action>)
    ensures
        r.deep_view() =~= state_actions(triples_dv(ms@), devices.deep_view()),
{
    let ghost tv = triples_dv(ms@);
    let n: usize = ms.len();
    let mut out: Vec<Action> = Vec::new();
    let mut i: usize = 0;
    proof {
        assert(tv.subrange(0, n as int) =~= tv);
        assert(out.deep_view() + state_actions(tv, devices.deep_view())
            =~= state_actions(tv, devices.deep_view()));
    }
    #[verifier::loop_isolation(false)]
    while i < n
        invariant
            i <= n,
            n == tv.len(),
            state_actions(tv, devices.deep_view())
                =~= out.deep_view()
                    + state_actions(tv.subrange(i as int, n as int), devices.deep_view()),
        decreases n - i,
    {
        let ghost suf = tv.subrange(i as int, n as int);
        proof {
            assert(suf[0] == tv[i as int]);
            assert(suf.subrange(1, suf.len() as int) =~= tv.subrange(i + 1, n as int));
        }
        match devices.get_by_path(ms[i].0.as_str(), ms[i].1.as_str()) {
            Some(device) => {
                match device.set_value(&ms[i].2) {
                    Some(updated) => {
                        let ghost out0 = out@;
                        let act = Action::SetDeviceState(updated);
                        out.push(act);
                        proof {
                            assert(out.deep_view()
                                =~= Seq::new(out0.len(), |k: int| out0[k].deep_view())
                                    + seq![act.deep_view()]);
                            assert(act.deep_view() == state_actions(suf,
                                devices.deep_view()).first());
                        }
                    },
                    None => {},
                }
            },
            None => {},
        }
        i = i + 1;
    }
    proof {
        assert(tv.subrange(n as int, n as int).len() == 0);
    }
    out
}

/// Everything the diff engine yields for one pair of namespaces:
/// the scene activations, then the state writes, read off the tree
/// that the changed entries encode into.
pub open spec fn diff_actions_spec(
    orig: Seq<(Seq<char>, ScalarS)>,
    fin: Seq<(Seq<char>, ScalarS)>,
    devices: Seq<DeviceS>,
) -> Option<Seq<ActionS>> {
    match diff_tree(diff_pairs(fin, orig), TreeS::Null) {
        None => None,
        Some(t) => Some(
            scene_actions(query_spec(t, "scene"@), devices)
                + state_actions(query_spec(t, "state"@), devices),
        ),
    }
}

/// Compares the two namespaces and translates the delta into domain
/// actions: scene activations first, then state writes.
pub fn diff_and_translate(
    original_ns: &EvaluationContext,
    final_ns: &EvaluationContext,
    devices: &DevicesState,
) -> (r: Result<Vec<Action>, CoreError>)
    ensures
        match r {
            Ok(a) => diff_actions_spec(original_ns@, final_ns@, devices.deep_view())
                == Some(a.deep_view()),
            Err(e) => diff_actions_spec(original_ns@, final_ns@, devices.deep_view())
                is None && e == CoreError::DiffEncoding,
        },
{
    let pairs: Vec<(String, Scalar)> = diff_contexts(final_ns, original_ns);
    let tree: TreeValue = match build_diff_tree(&pairs) {
        Ok(t) => t,
        Err(e) => {
            return Err(e);
        },
    };
    let scene_ms: Vec<(String, String, TreeValue)> = query(&tree, "scene");
    let state_ms: Vec<(String, String, TreeValue)> = query(&tree, "state");
    let mut out: Vec<Action> = translate_scene_matches(&scene_ms, devices);
    let mut states: Vec<Action> = translate_state_matches(&state_ms, devices);
    let ghost out0 = out@;
    let ghost st0 = states@;
    out.append(&mut states);
    proof {
        assert(out@ =~= out0 + st0);
        assert(out.deep_view()
            =~= Seq::new(out0.len(), |k: int| out0[k].deep_view())
                + Seq::new(st0.len(), |k: int| st0[k].deep_view()));
    }
    Ok(out)
}

} // verus!
