//! The snapshot builder: projects device, scene and group state into
//! the flat evaluation namespace.

use vstd::prelude::*;
use crate::context::{EvaluationContext, ctx_set};
use crate::device::{DeviceS, DevicesState, FlattenedScenesConfig, FlattenedGroupsConfig,
    device_value, find_by_key};
use crate::error::CoreError;
use crate::flatten::{flat_pairs, leaf_value, leaf_to_value, value_kv_pairs_deep};
use crate::strings::{normalized, name_to_evalexpr};
use crate::value::{ScalarS, TreeValue, TreeS, tree_is_scalar, fields_dv, lemma_fields_dv};

verus! {

broadcast use vstd::std_specs::vec::group_vec_axioms, vstd::seq::group_seq_axioms;

/// Sets a run of flattened (path, leaf) pairs into a namespace, in
/// order.  A non-scalar leaf is a conversion failure.
pub open spec fn add_tree_pairs(
    c: Seq<(Seq<char>, ScalarS)>,
    pairs: Seq<(Seq<char>, TreeS)>,
) -> Option<Seq<(Seq<char>, ScalarS)>>
    decreases pairs.len(),
{
    if pairs.len() == 0 {
        Some(c)
    } else if !tree_is_scalar(pairs[0].1) {
        None
    } else {
        add_tree_pairs(
            ctx_set(c, pairs[0].0, leaf_value(pairs[0].1)),
            pairs.subrange(1, pairs.len() as int),
        )
    }
}

/// The namespace root under which a device's value is flattened.
pub open spec fn device_prefix(d: DeviceS) -> Seq<char> {
    "devices."@ + d.integration_id + "."@ + normalized(d.name)
}

/// Every device's value flattened into the namespace, in registry
/// order.
pub open spec fn add_devices(
    c: Seq<(Seq<char>, ScalarS)>,
    ds: Seq<DeviceS>,
) -> Option<Seq<(Seq<char>, ScalarS)>>
    decreases ds.len(),
{
    if ds.len() == 0 {
        Some(c)
    } else {
        match add_tree_pairs(c, flat_pairs(device_value(ds[0]), device_prefix(ds[0]))) {
            None => None,
            Some(c2) => add_devices(c2, ds.subrange(1, ds.len() as int)),
        }
    }
}

/// The namespace root under which one scene's override for one device
/// is flattened: the scene id verbatim, the device's integration id,
/// and the device's normalized name.
pub open spec fn scene_device_prefix(scene_id: Seq<char>, d: DeviceS) -> Seq<char> {
    "scenes."@ + scene_id + "."@ + d.integration_id + "."@ + normalized(d.name)
}

/// One scene's overrides: each resolved by device key against the
/// registry; an absent device is skipped silently.
pub open spec fn add_scene_overrides(
    c: Seq<(Seq<char>, ScalarS)>,
    scene_id: Seq<char>,
    ovs: Seq<(Seq<char>, TreeS)>,
    devices: Seq<DeviceS>,
) -> Option<Seq<(Seq<char>, ScalarS)>>
    decreases ovs.len(),
{
    if ovs.len() == 0 {
        Some(c)
    } else {
        match find_by_key(devices, ovs[0].0) {
            None => add_scene_overrides(c, scene_id, ovs.subrange(1, ovs.len() as int), devices),
            Some(d) => match add_tree_pairs(
                c,
                flat_pairs(ovs[0].1, scene_device_prefix(scene_id, d)),
            ) {
                None => None,
                Some(c2) => add_scene_overrides(
                    c2,
                    scene_id,
                    ovs.subrange(1, ovs.len() as int),
                    devices,
                ),
            },
        }
    }
}

/// Every scene's overrides flattened into the namespace, in order.
pub open spec fn add_scenes(
    c: Seq<(Seq<char>, ScalarS)>,
    scenes: Seq<(Seq<char>, Seq<(Seq<char>, TreeS)>)>,
    devices: Seq<DeviceS>,
) -> Option<Seq<(Seq<char>, ScalarS)>>
    decreases scenes.len(),
{
    if scenes.len() == 0 {
        Some(c)
    } else {
        match add_scene_overrides(c, scenes[0].0, scenes[0].1, devices) {
            None => None,
            Some(c2) => add_scenes(c2, scenes.subrange(1, scenes.len() as int), devices),
        }
    }
}

/// The groups collaborator's path-keyed values, set as-is; a
/// non-scalar value is a conversion failure.
pub open spec fn add_groups(
    c: Seq<(Seq<char>, ScalarS)>,
    gs: Seq<(Seq<char>, TreeS)>,
) -> Option<Seq<(Seq<char>, ScalarS)>>
    decreases gs.len(),
{
    if gs.len() == 0 {
        Some(c)
    } else if !tree_is_scalar(gs[0].1) {
        None
    } else {
        add_groups(ctx_set(c, gs[0].0, leaf_value(gs[0].1)), gs.subrange(1, gs.len() as int))
    }
}

/// What the built namespace holds: devices first, then scene
/// overrides, then group values; `None` on a conversion failure.
pub open spec fn build_ctx_spec(
    devices: Seq<DeviceS>,
    scenes: Seq<(Seq<char>, Seq<(Seq<char>, TreeS)>)>,
    groups: Seq<(Seq<char>, TreeS)>,
) -> Option<Seq<(Seq<char>, ScalarS)>> {
    match add_devices(Seq::empty(), devices) {
        None => None,
        Some(c1) => match add_scenes(c1, scenes, devices) {
            None => None,
            Some(c2) => add_groups(c2, groups),
        },
    }
}

/// Sets a vector of flattened pairs into the namespace, in order.
fn add_pairs(ctx: &mut EvaluationContext, pairs: &Vec<(String, TreeValue)>)
    -> (r: Result<(), CoreError>)
    requires
        old(ctx).wf(),
    ensures
        match r {
            Ok(()) => add_tree_pairs(old(ctx)@, fields_dv(pairs@)) == Some(final(ctx)@)
                && final(ctx).wf(),
            Err(e) => add_tree_pairs(old(ctx)@, fields_dv(pairs@)) is None
                && e == CoreError::Conversion,
        },
{
    let ghost f = fields_dv(pairs@);
    proof {
        lemma_fields_dv(pairs@);
        assert(f.subrange(0, f.len() as int) =~= f);
    }
    let n: usize = pairs.len();
    let mut i: usize = 0;
    #[verifier::loop_isolation(false)]
    while i < n
        invariant
            i <= n,
            n == f.len(),
            ctx.wf(),
            add_tree_pairs(old(ctx)@, f)
                == add_tree_pairs(ctx@, f.subrange(i as int, n as int)),
        decreases n - i,
    {
        let ghost suf = f.subrange(i as int, n as int);
        proof {
            assert(suf[0] == f[i as int]);
            assert(suf.subrange(1, suf.len() as int) =~= f.subrange(i + 1, n as int));
        }
        match leaf_to_value(&pairs[i].1) {
            Ok(v) => {
                let key: String = pairs[i].0.clone();
                ctx.set(key, v);
            },
            Err(_) => {
                return Err(CoreError::Conversion);
            },
        }
        i = i + 1;
    }
    proof {
        assert(f.subrange(n as int, n as int).len() == 0);
    }
    Ok(())
}

/// Builds the evaluation namespace from the three snapshots.  The
/// result is a function of the snapshots alone: building twice from
/// identical inputs yields an identical namespace.
pub fn state_to_eval_context(
    devices: &DevicesState,
    flattened_scenes: &FlattenedScenesConfig,
    flattened_groups: &FlattenedGroupsConfig,
) -> (r: Result<EvaluationContext, CoreError>)
    ensures
        match r {
            Ok(c) => build_ctx_spec(
                devices.deep_view(),
                flattened_scenes.deep_view(),
                flattened_groups.deep_view(),
            ) == Some(c@) && c.wf(),
            Err(e) => build_ctx_spec(
                devices.deep_view(),
                flattened_scenes.deep_view(),
                flattened_groups.deep_view(),
            ) is None && e == CoreError::Conversion,
        },
{
    let ghost dvs = devices.deep_view();
    let ghost svs = flattened_scenes.deep_view();
    let ghost gvs = flattened_groups.deep_view();
    let mut ctx: EvaluationContext = EvaluationContext::new();

    // Devices: flatten each device's value under its normalized root.
    let nd: usize = devices.0.len();
    let mut i: usize = 0;
    proof {
        assert(dvs.subrange(0, nd as int) =~= dvs);
    }
    #[verifier::loop_isolation(false)]
    while i < nd
        invariant
            i <= nd,
            ctx.wf(),
            add_devices(Seq::empty(), dvs)
                == add_devices(ctx@, dvs.subrange(i as int, nd as int)),
        decreases nd - i,
    {
        let ghost suf = dvs.subrange(i as int, nd as int);
        proof {
            assert(suf[0] == dvs[i as int]);
            assert(suf.subrange(1, suf.len() as int) =~= dvs.subrange(i + 1, nd as int));
        }
        let root: TreeValue = devices.0[i].get_value();
        let mut prefix: String = String::from_str("devices.");
        prefix.append(devices.0[i].integration_id.as_str());
        prefix.append(".");
        let norm: String = name_to_evalexpr(devices.0[i].name.as_str());
        prefix.append(norm.as_str());
        proof {
            assert(prefix@ == device_prefix(dvs[i as int]));
        }
        let pairs: Vec<(String, TreeValue)> = value_kv_pairs_deep(&root, prefix.as_str());
        match add_pairs(&mut ctx, &pairs) {
            Ok(()) => {},
            Err(e) => {
                return Err(e);
            },
        }
        i = i + 1;
    }
    proof {
        assert(dvs.subrange(nd as int, nd as int).len() == 0);
    }
    let ghost c1 = ctx@;

    // Scenes: flatten each override against the device it names.
    let ns: usize = flattened_scenes.0.len();
    let mut j: usize = 0;
    proof {
        assert(svs.subrange(0, ns as int) =~= svs);
    }
    #[verifier::loop_isolation(false)]
    while j < ns
        invariant
            j <= ns,
            ctx.wf(),
            add_devices(Seq::empty(), dvs) == Some(c1),
            add_scenes(c1, svs, dvs)
                == add_scenes(ctx@, svs.subrange(j as int, ns as int), dvs),
        decreases ns - j,
    {
        let ghost ssuf = svs.subrange(j as int, ns as int);
        proof {
            assert(ssuf[0] == svs[j as int]);
            assert(ssuf.subrange(1, ssuf.len() as int) =~= svs.subrange(j + 1, ns as int));
        }
        let ghost cj = ctx@;
        let ghost ovs = svs[j as int].1;
        let scene_id: &String = &flattened_scenes.0[j].0;
        let no: usize = flattened_scenes.0[j].1.devices.len();
        let mut k: usize = 0;
        proof {
            lemma_fields_dv(flattened_scenes.0@[j as int].1.devices@);
            assert(ovs.subrange(0, no as int) =~= ovs);
        }
        #[verifier::loop_isolation(false)]
        while k < no
            invariant
                k <= no,
                ctx.wf(),
                add_scene_overrides(cj, svs[j as int].0, ovs, dvs)
                    == add_scene_overrides(ctx@, svs[j as int].0,
                        ovs.subrange(k as int, no as int), dvs),
            decreases no - k,
        {
            let ghost osuf = ovs.subrange(k as int, no as int);
            proof {
                assert(osuf[0] == ovs[k as int]);
                assert(osuf.subrange(1, osuf.len() as int)
                    =~= ovs.subrange(k + 1, no as int));
            }
            let device_key: &String = &flattened_scenes.0[j].1.devices[k].0;
            match devices.get_by_key(device_key.as_str()) {
                None => {},
                Some(device) => {
                    let mut prefix: String = String::from_str("scenes.");
                    prefix.append(scene_id.as_str());
                    prefix.append(".");
                    prefix.append(device.integration_id.as_str());
                    prefix.append(".");
                    let nname: String = name_to_evalexpr(device.name.as_str());
                    prefix.append(nname.as_str());
                    proof {
                        assert(prefix@ == scene_device_prefix(svs[j as int].0,
                            find_by_key(dvs, ovs[k as int].0)->Some_0));
                    }
                    let pairs: Vec<(String, TreeValue)> = value_kv_pairs_deep(
                        &flattened_scenes.0[j].1.devices[k].1,
                        prefix.as_str(),
                    );
                    match add_pairs(&mut ctx, &pairs) {
                        Ok(()) => {},
                        Err(e) => {
                            proof {
                                assert(add_scene_overrides(cj, svs[j as int].0, ovs, dvs)
                                    is None);
                                assert(add_scenes(c1, svs, dvs) is None);
                            }
                            return Err(e);
                        },
                    }
                },
            }
            k = k + 1;
        }
        proof {
            assert(ovs.subrange(no as int, no as int).len() == 0);
            assert(add_scene_overrides(cj, svs[j as int].0, ovs, dvs) == Some(ctx@));
        }
        j = j + 1;
    }
    proof {
        assert(svs.subrange(ns as int, ns as int).len() == 0);
    }
    let ghost c2 = ctx@;

    // Groups: opaque path-keyed values, set as-is.
    let ng: usize = flattened_groups.0.len();
    let mut g: usize = 0;
    proof {
        lemma_fields_dv(flattened_groups.0@);
        assert(gvs.subrange(0, ng as int) =~= gvs);
    }
    #[verifier::loop_isolation(false)]
    while g < ng
        invariant
            g <= ng,
            ctx.wf(),
            add_groups(c2, gvs) == add_groups(ctx@, gvs.subrange(g as int, ng as int)),
        decreases ng - g,
    {
        let ghost gsuf = gvs.subrange(g as int, ng as int);
        proof {
            assert(gsuf[0] == gvs[g as int]);
            assert(gsuf.subrange(1, gsuf.len() as int) =~= gvs.subrange(g + 1, ng as int));
        }
        match leaf_to_value(&flattened_groups.0[g].1) {
            Ok(v) => {
                let key: String = flattened_groups.0[g].0.clone();
                ctx.set(key, v);
            },
            Err(e) => {
                return Err(e);
            },
        }
        g = g + 1;
    }
    proof {
        assert(gvs.subrange(ng as int, ng as int).len() == 0);
    }
    Ok(ctx)
}

} // verus!
