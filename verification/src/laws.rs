//! The laws of the core, stated and proved over the same spec
//! functions that the public contracts use.

use vstd::prelude::*;
use crate::action::{ActionS, SceneDescriptorS};
use crate::builder::build_ctx_spec;
use crate::commands::{PendingCommandS, tuple_strings};
use crate::context::ctx_lookup;
use crate::device::{DeviceS, find_by_path};
use crate::diff::{diff_pairs, diff_tree, scene_actions, state_actions};
use crate::engine::{outcome_actions, explicit_actions};
use crate::error::CoreError;
use crate::pointer::{parse_pointer, assign_spec, query_spec};
use crate::value::{ScalarS, TreeS};

verus! {

broadcast use vstd::seq::group_seq_axioms;

/// Building the namespace is deterministic: two builds from identical
/// device, scene and group snapshots yield the identical namespace.
pub proof fn lemma_namespace_build_deterministic(
    devices: Seq<DeviceS>,
    scenes: Seq<(Seq<char>, Seq<(Seq<char>, TreeS)>)>,
    groups: Seq<(Seq<char>, TreeS)>,
    c1: Seq<(Seq<char>, ScalarS)>,
    c2: Seq<(Seq<char>, ScalarS)>,
)
    requires
        build_ctx_spec(devices, scenes, groups) == Some(c1),
        build_ctx_spec(devices, scenes, groups) == Some(c2),
    ensures
        c1 == c2,
{
}

/// An evaluation whose result is the boolean `false` dispatches
/// nothing, whatever was queued and whatever changed.
pub proof fn lemma_false_result_suppresses_actions(
    calls: Seq<PendingCommandS>,
    orig: Seq<(Seq<char>, ScalarS)>,
    fin: Seq<(Seq<char>, ScalarS)>,
    devices: Seq<DeviceS>,
)
    ensures
        outcome_actions(true, calls, orig, fin, devices)
            == Ok::<Seq<ActionS>, CoreError>(Seq::empty()),
{
}

/// A diffed path whose device is absent from the registry yields no
/// action at all — and no error: the miss is silent.
pub proof fn lemma_unresolved_device_skipped(
    intg: Seq<char>,
    nm: Seq<char>,
    leaf: TreeS,
    devices: Seq<DeviceS>,
)
    requires
        find_by_path(devices, intg, nm) is None,
    ensures
        scene_actions(seq![(intg, nm, leaf)], devices) == Seq::<ActionS>::empty(),
        state_actions(seq![(intg, nm, leaf)], devices) == Seq::<ActionS>::empty(),
{
    let m = seq![(intg, nm, leaf)];
    assert(m.subrange(1, 1).len() == 0);
    assert(scene_actions(m.subrange(1, 1), devices) =~= Seq::<ActionS>::empty());
    assert(state_actions(m.subrange(1, 1), devices) =~= Seq::<ActionS>::empty());
    assert(scene_actions(m, devices) =~= Seq::<ActionS>::empty());
    assert(state_actions(m, devices) =~= Seq::<ActionS>::empty());
}

/// When `group_keys` holds a tuple of strings at evaluation end, an
/// explicitly queued scene activation carries exactly those group
/// ids, in tuple order, and no device scoping.
pub proof fn lemma_group_scoping(
    scene_id: Seq<char>,
    fin: Seq<(Seq<char>, ScalarS)>,
    v: ScalarS,
    gs: Seq<Seq<char>>,
)
    requires
        ctx_lookup(fin, "group_keys"@) == Some(v),
        tuple_strings(v) == Some(gs),
    ensures
        explicit_actions(seq![PendingCommandS::ActivateScene(scene_id)], fin)
            == Ok::<Seq<ActionS>, CoreError>(seq![
                ActionS::ActivateScene(SceneDescriptorS {
                    scene_id: scene_id,
                    device_keys: None,
                    group_keys: Some(gs),
                }),
            ]),
{
    let cs = seq![PendingCommandS::ActivateScene(scene_id)];
    assert(cs.subrange(1, 1).len() == 0);
    assert(explicit_actions(cs.subrange(1, 1), fin)
        == Ok::<Seq<ActionS>, CoreError>(Seq::empty()));
    let h = seq![
        ActionS::ActivateScene(SceneDescriptorS {
            scene_id: scene_id,
            device_keys: None,
            group_keys: Some(gs),
        }),
    ];
    assert(h + Seq::<ActionS>::empty() =~= h);
}

/// The tree one diffed `devices.<integration>.<name>.scene` path
/// encodes into: a chain of singleton objects ending in the assigned
/// scene id.
pub open spec fn scene_chain(intg: Seq<char>, nm: Seq<char>, sid: Seq<char>) -> TreeS {
    TreeS::Object(seq![
        ("devices"@, TreeS::Object(seq![
            (intg, TreeS::Object(seq![
                (nm, TreeS::Object(seq![("scene"@, TreeS::Str(sid))])),
            ])),
        ])),
    ])
}

/// A diff holding one scene-path entry, and nothing else, dispatches
/// exactly one activation — the assigned scene id, scoped to the one
/// device the path resolves to — and no state write.
pub proof fn lemma_scene_assignment_dispatches_activation(
    p: Seq<char>,
    intg: Seq<char>,
    nm: Seq<char>,
    sid: Seq<char>,
    devices: Seq<DeviceS>,
    d: DeviceS,
)
    requires
        parse_pointer(p) == Some(seq!["devices"@, intg, nm, "scene"@]),
        intg != "0"@,
        intg != "-"@,
        nm != "0"@,
        nm != "-"@,
        find_by_path(devices, intg, nm) == Some(d),
    ensures
        diff_tree(seq![(p, ScalarS::Str(sid))], TreeS::Null)
            == Some(scene_chain(intg, nm, sid)),
        scene_actions(query_spec(scene_chain(intg, nm, sid), "scene"@), devices)
            == seq![
                ActionS::ActivateScene(SceneDescriptorS {
                    scene_id: sid,
                    device_keys: Some(seq![d.key]),
                    group_keys: None,
                }),
            ],
        state_actions(query_spec(scene_chain(intg, nm, sid), "state"@), devices)
            == Seq::<ActionS>::empty(),
{
    reveal_strlit("devices");
    reveal_strlit("scene");
    reveal_strlit("state");
    reveal_strlit("0");
    reveal_strlit("-");
    let segs = seq!["devices"@, intg, nm, "scene"@];
    let t = scene_chain(intg, nm, sid);

    // The assignment into the empty tree expands the whole chain.
    assert("devices"@.len() == 7);
    assert("scene"@.len() == 5);
    assert("state"@.len() == 5);
    assert("0"@.len() == 1);
    assert("-"@.len() == 1);
    assert("devices"@ != "0"@ && "devices"@ != "-"@);
    assert("scene"@ != "0"@ && "scene"@ != "-"@);
    assert(crate::pointer::expand_chain(segs, 4, TreeS::Str(sid)) == TreeS::Str(sid));
    assert(crate::pointer::expand_chain(segs, 3, TreeS::Str(sid))
        == TreeS::Object(seq![("scene"@, TreeS::Str(sid))]));
    assert(crate::pointer::expand_chain(segs, 2, TreeS::Str(sid))
        == TreeS::Object(seq![(nm, TreeS::Object(seq![("scene"@, TreeS::Str(sid))]))]));
    assert(crate::pointer::expand_chain(segs, 1, TreeS::Str(sid))
        == TreeS::Object(seq![
            (intg, TreeS::Object(seq![
                (nm, TreeS::Object(seq![("scene"@, TreeS::Str(sid))])),
            ])),
        ]));
    assert(crate::pointer::expand_chain(segs, 0, TreeS::Str(sid)) == t);
    assert(assign_spec(TreeS::Null, segs, 0, TreeS::Str(sid)) == Some(t));
    let ps = seq![(p, ScalarS::Str(sid))];
    assert(ps.subrange(1, 1).len() == 0);
    assert(diff_tree(ps.subrange(1, 1), t) == Some(t));
    assert(diff_tree(ps, TreeS::Null) == Some(t));

    // The scene query finds the one leaf; the state query finds none.
    let fs_dev = seq![(intg, TreeS::Object(seq![
        (nm, TreeS::Object(seq![("scene"@, TreeS::Str(sid))])),
    ]))];
    let fs_name = seq![(nm, TreeS::Object(seq![("scene"@, TreeS::Str(sid))]))];
    let fs_leaf = seq![("scene"@, TreeS::Str(sid))];
    assert(crate::pointer::obj_get(seq![("devices"@, TreeS::Object(fs_dev))], "devices"@)
        == Some(TreeS::Object(fs_dev)));
    assert(crate::pointer::children(TreeS::Object(fs_dev)) == fs_dev);
    assert(crate::pointer::children(fs_dev[0].1) == fs_name);
    assert(fs_dev.subrange(1, 1).len() == 0);
    assert(fs_name.subrange(1, 1).len() == 0);
    assert(fs_leaf.subrange(1, 1).len() == 0);
    assert(crate::pointer::obj_get(fs_leaf, "scene"@) == Some(TreeS::Str(sid)));
    assert("scene"@[1] == 'c');
    assert("state"@[1] == 't');
    assert("scene"@ != "state"@);
    assert(crate::pointer::obj_get(fs_leaf.subrange(1, 1), "state"@) is None);
    assert(crate::pointer::obj_get(fs_leaf, "state"@) is None);
    assert(crate::pointer::query_level2(intg, fs_name.subrange(1, 1), "scene"@).len() == 0);
    assert(crate::pointer::query_level2(intg, fs_name.subrange(1, 1), "state"@).len() == 0);
    assert(crate::pointer::query_level2(intg, fs_name, "scene"@)
        =~= seq![(intg, nm, TreeS::Str(sid))]);
    assert(crate::pointer::query_level2(intg, fs_name, "state"@)
        =~= Seq::<(Seq<char>, Seq<char>, TreeS)>::empty());
    assert(crate::pointer::query_level1(fs_dev.subrange(1, 1), "scene"@).len() == 0);
    assert(crate::pointer::query_level1(fs_dev.subrange(1, 1), "state"@).len() == 0);
    assert(crate::pointer::query_level1(fs_dev, "scene"@)
        =~= seq![(intg, nm, TreeS::Str(sid))]);
    assert(crate::pointer::query_level1(fs_dev, "state"@)
        =~= Seq::<(Seq<char>, Seq<char>, TreeS)>::empty());
    assert(query_spec(t, "scene"@) == seq![(intg, nm, TreeS::Str(sid))]);
    assert(query_spec(t, "state"@) =~= Seq::<(Seq<char>, Seq<char>, TreeS)>::empty());

    // Translation: the one match resolves to `d` and yields the one
    // activation; the empty state match set yields nothing.
    let m = seq![(intg, nm, TreeS::Str(sid))];
    assert(m.subrange(1, 1).len() == 0);
    assert(scene_actions(m.subrange(1, 1), devices) =~= Seq::<ActionS>::empty());
    let act = ActionS::ActivateScene(SceneDescriptorS {
        scene_id: sid,
        device_keys: Some(seq![d.key]),
        group_keys: None,
    });
    assert(scene_actions(m, devices) =~= seq![act]);
    assert(state_actions(query_spec(t, "state"@), devices) =~= Seq::<ActionS>::empty());
}

/// The diff holds exactly the final namespace's entries whose value
/// differs from the original namespace's value at the same path.
pub proof fn lemma_diff_precision(
    fin: Seq<(Seq<char>, ScalarS)>,
    orig: Seq<(Seq<char>, ScalarS)>,
)
    ensures
        forall|p: (Seq<char>, ScalarS)| #[trigger] diff_pairs(fin, orig).contains(p)
            <==> (fin.contains(p) && ctx_lookup(orig, p.0) != Some(p.1)),
    decreases fin.len(),
{
    if fin.len() == 0 {
        assert forall|p: (Seq<char>, ScalarS)| #[trigger] diff_pairs(fin, orig).contains(p)
            implies (fin.contains(p) && ctx_lookup(orig, p.0) != Some(p.1)) by {
        }
    } else {
        let tail = fin.subrange(1, fin.len() as int);
        lemma_diff_precision(tail, orig);
        let head: Seq<(Seq<char>, ScalarS)> = if ctx_lookup(orig, fin[0].0) != Some(fin[0].1) {
            seq![fin[0]]
        } else {
            Seq::empty()
        };
        assert(diff_pairs(fin, orig) == head + diff_pairs(tail, orig));
        assert forall|p: (Seq<char>, ScalarS)| #[trigger] diff_pairs(fin, orig).contains(p)
            implies (fin.contains(p) && ctx_lookup(orig, p.0) != Some(p.1)) by {
            let i = choose|i: int| 0 <= i < diff_pairs(fin, orig).len()
                && diff_pairs(fin, orig)[i] == p;
            if i < head.len() {
                assert(p == fin[0]);
            } else {
                assert(diff_pairs(tail, orig)[i - head.len()] == p);
                assert(diff_pairs(tail, orig).contains(p));
                let j = choose|j: int| 0 <= j < tail.len() && tail[j] == p;
                assert(fin[j + 1] == p);
            }
        }
        assert forall|p: (Seq<char>, ScalarS)|
            fin.contains(p) && ctx_lookup(orig, p.0) != Some(p.1)
            implies #[trigger] diff_pairs(fin, orig).contains(p) by {
            let i = choose|i: int| 0 <= i < fin.len() && fin[i] == p;
            if i == 0 {
                assert(head[0] == p);
                assert((head + diff_pairs(tail, orig))[0] == p);
            } else {
                assert(tail[i - 1] == p);
                assert(tail.contains(p));
                assert(diff_pairs(tail, orig).contains(p));
                let j = choose|j: int| 0 <= j < diff_pairs(tail, orig).len()
                    && diff_pairs(tail, orig)[j] == p;
                assert((head + diff_pairs(tail, orig))[head.len() + j] == p);
            }
        }
    }
}

} // verus!
