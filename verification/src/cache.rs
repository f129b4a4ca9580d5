//! The single-slot namespace cache: repeated builds from structurally
//! identical snapshots are served from the most recent result.  The
//! key is derived from the same snapshots the namespace was built
//! from, never from identity, so the cache can never hand back a
//! namespace built from different inputs than the ones asked for.

use vstd::prelude::*;
use crate::builder::{build_ctx_spec, state_to_eval_context};
use crate::context::EvaluationContext;
use crate::device::{Device, DevicesState, FlattenedSceneConfig, FlattenedScenesConfig,
    FlattenedGroupsConfig, device_clone};
use crate::error::CoreError;
use crate::strings::str_eq;
use crate::value::{TreeValue, tree_eq, tree_clone, fields_dv, lemma_fields_dv};

verus! {

broadcast use vstd::std_specs::vec::group_vec_axioms, vstd::seq::group_seq_axioms;

/// Structural equality of two (key, tree) lists.
fn fields_vec_eq(a: &Vec<(String, TreeValue)>, b: &Vec<(String, TreeValue)>) -> (r: bool)
    ensures
        r == (fields_dv(a@) == fields_dv(b@)),
{
    proof {
        lemma_fields_dv(a@);
        lemma_fields_dv(b@);
    }
    if a.len() != b.len() {
        return false;
    }
    let n: usize = a.len();
    let mut i: usize = 0;
    let mut eq: bool = true;
    #[verifier::loop_isolation(false)]
    while i < n
        invariant
            i <= n,
            eq == (forall|k: int| 0 <= k < i
                ==> #[trigger] fields_dv(a@)[k] == fields_dv(b@)[k]),
        decreases n - i,
    {
        let ke: bool = str_eq(a[i].0.as_str(), b[i].0.as_str());
        let ve: bool = tree_eq(&a[i].1, &b[i].1);
        proof {
            if ke && ve {
                assert(fields_dv(a@)[i as int] == fields_dv(b@)[i as int]);
            } else {
                assert(fields_dv(a@)[i as int].0 == a@[i as int].0@);
                assert(fields_dv(b@)[i as int].0 == b@[i as int].0@);
                assert(fields_dv(a@)[i as int] != fields_dv(b@)[i as int]);
            }
        }
        eq = eq && ke && ve;
        i = i + 1;
    }
    if eq {
        proof {
            assert(fields_dv(a@) =~= fields_dv(b@));
        }
    }
    eq
}

/// Structural copy of a (key, tree) list.
fn fields_vec_clone(a: &Vec<(String, TreeValue)>) -> (r: Vec<(String, TreeValue)>)
    ensures
        fields_dv(r@) == fields_dv(a@),
{
    let n: usize = a.len();
    let mut out: Vec<(String, TreeValue)> = Vec::new();
    let mut i: usize = 0;
    proof {
        lemma_fields_dv(a@);
    }
    #[verifier::loop_isolation(false)]
    while i < n
        invariant
            i <= n,
            out@.len() == i,
            forall|k: int| 0 <= k < i ==> #[trigger] fields_dv(out@)[k] == fields_dv(a@)[k],
        decreases n - i,
    {
        let ghost out0 = out@;
        out.push((a[i].0.clone(), tree_clone(&a[i].1)));
        proof {
            lemma_fields_dv(out@);
            lemma_fields_dv(out0);
            assert(forall|m: int| 0 <= m < i ==> out@[m] == out0[m]);
            assert forall|m: int| 0 <= m < i + 1
                implies #[trigger] fields_dv(out@)[m] == fields_dv(a@)[m] by {
                if m < i {
                    assert(fields_dv(out0)[m] == fields_dv(a@)[m]);
                    assert(fields_dv(out@)[m] == (out@[m].0@, crate::value::tree_dv(out@[m].1)));
                    assert(fields_dv(out0)[m] == (out0[m].0@, crate::value::tree_dv(out0[m].1)));
                }
            }
        }
        i = i + 1;
    }
    proof {
        lemma_fields_dv(out@);
        assert(fields_dv(out@) =~= fields_dv(a@));
    }
    out
}

/// Structural equality of two devices.
fn device_eq(a: &Device, b: &Device) -> (r: bool)
    ensures
        r == (a.deep_view() == b.deep_view()),
{
    let ids: bool = str_eq(a.key.as_str(), b.key.as_str())
        && str_eq(a.name.as_str(), b.name.as_str())
        && str_eq(a.integration_id.as_str(), b.integration_id.as_str());
    let scenes: bool = match (&a.scene, &b.scene) {
        (None, None) => true,
        (Some(x), Some(y)) => str_eq(x.as_str(), y.as_str()),
        _ => false,
    };
    let states: bool = tree_eq(&a.state, &b.state);
    ids && scenes && states
}

/// Structural equality of two registry snapshots.
fn devices_eq(a: &DevicesState, b: &DevicesState) -> (r: bool)
    ensures
        r == (a.deep_view() == b.deep_view()),
{
    if a.0.len() != b.0.len() {
        proof {
            assert(a.deep_view().len() != b.deep_view().len());
        }
        return false;
    }
    let n: usize = a.0.len();
    let mut i: usize = 0;
    let mut eq: bool = true;
    #[verifier::loop_isolation(false)]
    while i < n
        invariant
            i <= n,
            eq == (forall|k: int| 0 <= k < i
                ==> #[trigger] a.deep_view()[k] == b.deep_view()[k]),
        decreases n - i,
    {
        let e: bool = device_eq(&a.0[i], &b.0[i]);
        proof {
            assert(a.deep_view()[i as int] == a.0@[i as int].deep_view());
            assert(b.deep_view()[i as int] == b.0@[i as int].deep_view());
        }
        eq = eq && e;
        i = i + 1;
    }
    if eq {
        proof {
            assert(a.deep_view() =~= b.deep_view());
        }
    }
    eq
}

/// Structural copy of a registry snapshot.
fn devices_clone(a: &DevicesState) -> (r: DevicesState)
    ensures
        r.deep_view() == a.deep_view(),
{
    let n: usize = a.0.len();
    let mut out: Vec<Device> = Vec::new();
    let mut i: usize = 0;
    #[verifier::loop_isolation(false)]
    while i < n
        invariant
            i <= n,
            out@.len() == i,
            forall|k: int| 0 <= k < i
                ==> (#[trigger] out@[k]).deep_view() == a.0@[k].deep_view(),
        decreases n - i,
    {
        out.push(device_clone(&a.0[i]));
        i = i + 1;
    }
    let r = DevicesState(out);
    proof {
        assert(r.deep_view() =~= a.deep_view());
    }
    r
}

/// Structural equality of two flattened scene configurations.
fn scenes_eq(a: &FlattenedScenesConfig, b: &FlattenedScenesConfig) -> (r: bool)
    ensures
        r == (a.deep_view() == b.deep_view()),
{
    if a.0.len() != b.0.len() {
        proof {
            assert(a.deep_view().len() != b.deep_view().len());
        }
        return false;
    }
    let n: usize = a.0.len();
    let mut i: usize = 0;
    let mut eq: bool = true;
    #[verifier::loop_isolation(false)]
    while i < n
        invariant
            i <= n,
            eq == (forall|k: int| 0 <= k < i
                ==> #[trigger] a.deep_view()[k] == b.deep_view()[k]),
        decreases n - i,
    {
        let ke: bool = str_eq(a.0[i].0.as_str(), b.0[i].0.as_str());
        let ve: bool = fields_vec_eq(&a.0[i].1.devices, &b.0[i].1.devices);
        proof {
            if ke && ve {
                assert(a.deep_view()[i as int] == b.deep_view()[i as int]);
            } else {
                assert(a.deep_view()[i as int].0 == a.0@[i as int].0@);
                assert(b.deep_view()[i as int].0 == b.0@[i as int].0@);
                assert(a.deep_view()[i as int] != b.deep_view()[i as int]);
            }
        }
        eq = eq && ke && ve;
        i = i + 1;
    }
    if eq {
        proof {
            assert(a.deep_view() =~= b.deep_view());
        }
    }
    eq
}

/// Structural copy of a flattened scene configuration.
fn scenes_clone(a: &FlattenedScenesConfig) -> (r: FlattenedScenesConfig)
    ensures
        r.deep_view() == a.deep_view(),
{
    let n: usize = a.0.len();
    let mut out: Vec<(String, FlattenedSceneConfig)> = Vec::new();
    let mut i: usize = 0;
    #[verifier::loop_isolation(false)]
    while i < n
        invariant
            i <= n,
            out@.len() == i,
            forall|k: int| 0 <= k < i
                ==> (#[trigger] out@[k]).0@ == a.0@[k].0@
                    && fields_dv(out@[k].1.devices@) == fields_dv(a.0@[k].1.devices@),
        decreases n - i,
    {
        let key: String = a.0[i].0.clone();
        let cfg = FlattenedSceneConfig { devices: fields_vec_clone(&a.0[i].1.devices) };
        out.push((key, cfg));
        i = i + 1;
    }
    let r = FlattenedScenesConfig(out);
    proof {
        assert(r.deep_view() =~= a.deep_view());
    }
    r
}

/// The most recent build, kept with the snapshots it was built from.
pub struct ContextCache {
    slot: Option<(DevicesState, FlattenedScenesConfig, FlattenedGroupsConfig,
        EvaluationContext)>,
}

impl ContextCache {
    /// The cached namespace really is the build of the cached
    /// snapshots.
    pub closed spec fn wf(self) -> bool {
        match self.slot {
            Some(s) => build_ctx_spec(s.0.deep_view(), s.1.deep_view(), s.2.deep_view())
                == Some(s.3@) && s.3.wf(),
            None => true,
        }
    }

    /// An empty cache.
    pub fn new() -> (r: Self)
        ensures
            r.wf(),
    {
        ContextCache { slot: None }
    }

    /// Builds the namespace, or serves it from the slot when the
    /// snapshots are structurally identical to the cached ones.  The
    /// result is exactly what a fresh build would return.
    pub fn get_or_build(
        &mut self,
        devices: &DevicesState,
        flattened_scenes: &FlattenedScenesConfig,
        flattened_groups: &FlattenedGroupsConfig,
    ) -> (r: Result<EvaluationContext, CoreError>)
        requires
            old(self).wf(),
        ensures
            final(self).wf(),
            match r {
                Ok(c) => build_ctx_spec(
                    devices.deep_view(),
                    flattened_scenes.deep_view(),
                    flattened_groups.deep_view(),
                ) == Some(c@) && c.wf(),
                Err(e) => build_ctx_spec(
                    devices.deep_view(),
                    flattened_scenes.deep_view(),
                    flattened_groups.deep_view(),
                ) is None && e == CoreError::Conversion,
            },
    {
        match &self.slot {
            Some(s) => {
                let hit: bool = devices_eq(&s.0, devices)
                    && scenes_eq(&s.1, flattened_scenes)
                    && fields_vec_eq(&s.2.0, &flattened_groups.0);
                if hit {
                    return Ok(s.3.snapshot());
                }
            },
            None => {},
        }
        match state_to_eval_context(devices, flattened_scenes, flattened_groups) {
            Ok(c) => {
                let stored = (
                    devices_clone(devices),
                    scenes_clone(flattened_scenes),
                    FlattenedGroupsConfig(fields_vec_clone(&flattened_groups.0)),
                    c.snapshot(),
                );
                self.slot = Some(stored);
                Ok(c)
            },
            Err(e) => Err(e),
        }
    }
}

} // verus!
