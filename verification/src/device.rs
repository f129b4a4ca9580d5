//! Devices and the registry snapshot handed into every evaluation, plus
//! the scene and group configurations resolved by their collaborators.

use vstd::prelude::*;
use crate::value::{TreeValue, TreeS, tree_dv, tree_clone, fields_dv, trees_dv,
    lemma_fields_dv, lemma_trees_dv};

verus! {

broadcast use vstd::std_specs::vec::group_vec_axioms, vstd::seq::group_seq_axioms;

/// One device: identity plus its current state value.
#[derive(Debug)]
pub struct Device {
    pub key: String,
    pub name: String,
    pub integration_id: String,
    pub scene: Option<String>,
    pub state: TreeValue,
}

/// The mathematical model of a [`Device`].
pub ghost struct DeviceS {
    pub key: Seq<char>,
    pub name: Seq<char>,
    pub integration_id: Seq<char>,
    pub scene: Option<Seq<char>>,
    pub state: TreeS,
}

impl DeepView for Device {
    type V = DeviceS;

    open spec fn deep_view(&self) -> DeviceS {
        DeviceS {
            key: self.key@,
            name: self.name@,
            integration_id: self.integration_id@,
            scene: match self.scene {
                Some(s) => Some(s@),
                None => None,
            },
            state: tree_dv(self.state),
        }
    }
}

/// The structured value under which a device appears in the namespace:
/// its `scene` (present only when one is set, so that a rule may assign
/// one) and its full `state`.
pub open spec fn device_value(d: DeviceS) -> TreeS {
    TreeS::Object(
        (match d.scene {
            Some(s) => seq![("scene"@, TreeS::Str(s))],
            None => Seq::empty(),
        }) + seq![("state"@, d.state)],
    )
}

/// Do two trees have the same shape: the same nesting, the same keys in
/// the same order, and leaves of the same scalar kind?
pub open spec fn shape_matches(a: TreeS, b: TreeS) -> bool
    decreases a,
{
    match (a, b) {
        (TreeS::Null, TreeS::Null) => true,
        (TreeS::Bool(_), TreeS::Bool(_)) => true,
        (TreeS::Int(_), TreeS::Int(_)) => true,
        (TreeS::Str(_), TreeS::Str(_)) => true,
        (TreeS::Array(xs), TreeS::Array(ys)) => arrays_match(xs, ys),
        (TreeS::Object(xs), TreeS::Object(ys)) => objects_match(xs, ys),
        _ => false,
    }
}

pub open spec fn arrays_match(xs: Seq<TreeS>, ys: Seq<TreeS>) -> bool
    decreases xs,
    via arrays_match_dec
{
    if xs.len() != ys.len() {
        false
    } else if xs.len() == 0 {
        true
    } else {
        shape_matches(xs[0], ys[0])
            && arrays_match(xs.subrange(1, xs.len() as int), ys.subrange(1, ys.len() as int))
    }
}

#[via_fn]
proof fn arrays_match_dec(xs: Seq<TreeS>, ys: Seq<TreeS>) {
    if xs.len() == ys.len() && xs.len() > 0 {
        assert(decreases_to!(xs => xs[0]));
        assert(decreases_to!(xs => xs.subrange(1, xs.len() as int)));
    }
}

pub open spec fn objects_match(xs: Seq<(Seq<char>, TreeS)>, ys: Seq<(Seq<char>, TreeS)>) -> bool
    decreases xs,
    via objects_match_dec
{
    if xs.len() != ys.len() {
        false
    } else if xs.len() == 0 {
        true
    } else {
        xs[0].0 == ys[0].0 && shape_matches(xs[0].1, ys[0].1)
            && objects_match(xs.subrange(1, xs.len() as int), ys.subrange(1, ys.len() as int))
    }
}

#[via_fn]
proof fn objects_match_dec(xs: Seq<(Seq<char>, TreeS)>, ys: Seq<(Seq<char>, TreeS)>) {
    if xs.len() == ys.len() && xs.len() > 0 {
        assert(decreases_to!(xs => xs[0]));
        assert(decreases_to!(xs => xs[0].1));
        assert(decreases_to!(xs => xs.subrange(1, xs.len() as int)));
    }
}

/// Checks whether two trees have the same shape.
pub fn tree_shape_eq(a: &TreeValue, b: &TreeValue) -> (r: bool)
    ensures
        r == shape_matches(a.deep_view(), b.deep_view()),
    decreases *a,
{
    match (a, b) {
        (TreeValue::Null, TreeValue::Null) => true,
        (TreeValue::Bool(_), TreeValue::Bool(_)) => true,
        (TreeValue::Int(_), TreeValue::Int(_)) => true,
        (TreeValue::Str(_), TreeValue::Str(_)) => true,
        (TreeValue::Array(xs), TreeValue::Array(ys)) => {
            proof {
                lemma_trees_dv(xs@);
                lemma_trees_dv(ys@);
            }
            if xs.len() != ys.len() {
                false
            } else {
                let n: usize = xs.len();
                let mut i: usize = 0;
                let mut eq: bool = true;
                proof {
                    lemma_arrays_match_from_end(trees_dv(xs@), trees_dv(ys@));
                }
                #[verifier::loop_isolation(false)]
                while i < n
                    invariant
                        i <= n,
                        arrays_match(trees_dv(xs@), trees_dv(ys@))
                            == (eq && arrays_match_from(trees_dv(xs@), trees_dv(ys@), i as int)),
                    decreases n - i,
                {
                    proof {
                        assert(decreases_to!(xs => xs@));
                        assert(decreases_to!(xs@ => xs@[i as int]));
                    }
                    let e: bool = tree_shape_eq(&xs[i], &ys[i]);
                    proof {
                        lemma_arrays_match_from(trees_dv(xs@), trees_dv(ys@), i as int);
                    }
                    eq = eq && e;
                    i = i + 1;
                }
                proof {
                    lemma_arrays_match_from_end(trees_dv(xs@), trees_dv(ys@));
                }
                eq
            }
        },
        (TreeValue::Object(xs), TreeValue::Object(ys)) => {
            proof {
                lemma_fields_dv(xs@);
                lemma_fields_dv(ys@);
            }
            if xs.len() != ys.len() {
                false
            } else {
                let n: usize = xs.len();
                let mut i: usize = 0;
                let mut eq: bool = true;
                proof {
                    lemma_objects_match_from_end(fields_dv(xs@), fields_dv(ys@));
                }
                #[verifier::loop_isolation(false)]
                while i < n
                    invariant
                        i <= n,
                        objects_match(fields_dv(xs@), fields_dv(ys@))
                            == (eq && objects_match_from(fields_dv(xs@), fields_dv(ys@), i as int)),
                    decreases n - i,
                {
                    proof {
                        assert(decreases_to!(xs => xs@));
                        assert(decreases_to!(xs@ => xs@[i as int]));
                        assert(decreases_to!(xs@[i as int] => xs@[i as int].1));
                    }
                    let ke: bool = crate::strings::str_eq(xs[i].0.as_str(), ys[i].0.as_str());
                    let ve: bool = tree_shape_eq(&xs[i].1, &ys[i].1);
                    proof {
                        lemma_objects_match_from(fields_dv(xs@), fields_dv(ys@), i as int);
                    }
                    eq = eq && ke && ve;
                    i = i + 1;
                }
                proof {
                    lemma_objects_match_from_end(fields_dv(xs@), fields_dv(ys@));
                }
                eq
            }
        },
        _ => false,
    }
}

/// `arrays_match` restricted to the elements from `i` on.
pub open spec fn arrays_match_from(xs: Seq<TreeS>, ys: Seq<TreeS>, i: int) -> bool {
    arrays_match(xs.subrange(i, xs.len() as int), ys.subrange(i, ys.len() as int))
}

proof fn lemma_arrays_match_from(xs: Seq<TreeS>, ys: Seq<TreeS>, i: int)
    requires
        xs.len() == ys.len(),
        0 <= i < xs.len(),
    ensures
        arrays_match_from(xs, ys, i)
            == (shape_matches(xs[i], ys[i]) && arrays_match_from(xs, ys, i + 1)),
{
    let sx = xs.subrange(i, xs.len() as int);
    let sy = ys.subrange(i, ys.len() as int);
    assert(sx[0] == xs[i]);
    assert(sy[0] == ys[i]);
    assert(sx.subrange(1, sx.len() as int) =~= xs.subrange(i + 1, xs.len() as int));
    assert(sy.subrange(1, sy.len() as int) =~= ys.subrange(i + 1, ys.len() as int));
}

proof fn lemma_arrays_match_from_end(xs: Seq<TreeS>, ys: Seq<TreeS>)
    requires
        xs.len() == ys.len(),
    ensures
        arrays_match_from(xs, ys, xs.len() as int),
        arrays_match_from(xs, ys, 0) == arrays_match(xs, ys),
{
    assert(xs.subrange(xs.len() as int, xs.len() as int).len() == 0);
    assert(xs.subrange(0, xs.len() as int) =~= xs);
    assert(ys.subrange(0, ys.len() as int) =~= ys);
}

/// `objects_match` restricted to the fields from `i` on.
pub open spec fn objects_match_from(
    xs: Seq<(Seq<char>, TreeS)>,
    ys: Seq<(Seq<char>, TreeS)>,
    i: int,
) -> bool {
    objects_match(xs.subrange(i, xs.len() as int), ys.subrange(i, ys.len() as int))
}

proof fn lemma_objects_match_from(xs: Seq<(Seq<char>, TreeS)>, ys: Seq<(Seq<char>, TreeS)>, i: int)
    requires
        xs.len() == ys.len(),
        0 <= i < xs.len(),
    ensures
        objects_match_from(xs, ys, i)
            == (xs[i].0 == ys[i].0 && shape_matches(xs[i].1, ys[i].1)
                && objects_match_from(xs, ys, i + 1)),
{
    let sx = xs.subrange(i, xs.len() as int);
    let sy = ys.subrange(i, ys.len() as int);
    assert(sx[0] == xs[i]);
    assert(sy[0] == ys[i]);
    assert(sx.subrange(1, sx.len() as int) =~= xs.subrange(i + 1, xs.len() as int));
    assert(sy.subrange(1, sy.len() as int) =~= ys.subrange(i + 1, ys.len() as int));
}

proof fn lemma_objects_match_from_end(xs: Seq<(Seq<char>, TreeS)>, ys: Seq<(Seq<char>, TreeS)>)
    requires
        xs.len() == ys.len(),
    ensures
        objects_match_from(xs, ys, xs.len() as int),
        objects_match_from(xs, ys, 0) == objects_match(xs, ys),
{
    assert(xs.subrange(xs.len() as int, xs.len() as int).len() == 0);
    assert(xs.subrange(0, xs.len() as int) =~= xs);
    assert(ys.subrange(0, ys.len() as int) =~= ys);
}

/// Copies a device.
pub fn device_clone(d: &Device) -> (r: Device)
    ensures
        r.deep_view() == d.deep_view(),
{
    Device {
        key: d.key.clone(),
        name: d.name.clone(),
        integration_id: d.integration_id.clone(),
        scene: match &d.scene {
            Some(s) => Some(s.clone()),
            None => None,
        },
        state: tree_clone(&d.state),
    }
}

impl Clone for Device {
    fn clone(&self) -> (r: Self)
        ensures
            r.deep_view() == self.deep_view(),
    {
        device_clone(self)
    }
}

impl Device {
    /// The structured value the snapshot builder flattens for this
    /// device: the `scene` key only when a scene is set, then `state`.
    pub fn get_value(&self) -> (r: TreeValue)
        ensures
            r.deep_view() == device_value(self.deep_view()),
    {
        let mut fields: Vec<(String, TreeValue)> = Vec::new();
        match &self.scene {
            Some(s) => {
                fields.push((String::from_str("scene"), TreeValue::Str(s.clone())));
            },
            None => {},
        }
        fields.push((String::from_str("state"), tree_clone(&self.state)));
        let r = TreeValue::Object(fields);
        proof {
            lemma_fields_dv(fields@);
            assert(fields_dv(fields@) =~= device_value(self.deep_view())->Object_0);
        }
        r
    }

    /// Validates `new_state` against the current state's shape and, on
    /// success, returns this device with its state wholly replaced.
    /// A shape mismatch is a benign non-match, not an error.
    pub fn set_value(&self, new_state: &TreeValue) -> (r: Option<Device>)
        ensures
            match r {
                Some(d) => shape_matches(new_state.deep_view(), tree_dv(self.state))
                    && d.deep_view() == DeviceS {
                        state: new_state.deep_view(),
                        ..self.deep_view()
                    },
                None => !shape_matches(new_state.deep_view(), tree_dv(self.state)),
            },
    {
        if tree_shape_eq(new_state, &self.state) {
            let mut d: Device = device_clone(self);
            d.state = tree_clone(new_state);
            Some(d)
        } else {
            None
        }
    }
}

/// The registry snapshot: every device, in a fixed order.  Lookups take
/// the first match, so the snapshot behaves as a key-to-device mapping.
#[derive(Debug)]
pub struct DevicesState(pub Vec<Device>);

impl DeepView for DevicesState {
    type V = Seq<DeviceS>;

    open spec fn deep_view(&self) -> Seq<DeviceS> {
        Seq::new(self.0@.len(), |i: int| self.0@[i].deep_view())
    }
}

/// First device with the given key, if any.
pub open spec fn find_by_key(ds: Seq<DeviceS>, key: Seq<char>) -> Option<DeviceS>
    decreases ds.len(),
{
    if ds.len() == 0 {
        None
    } else if ds[0].key == key {
        Some(ds[0])
    } else {
        find_by_key(ds.subrange(1, ds.len() as int), key)
    }
}

/// First device on the given integration whose normalized name is the
/// given path segment, if any.
pub open spec fn find_by_path(ds: Seq<DeviceS>, intg: Seq<char>, nm: Seq<char>) -> Option<DeviceS>
    decreases ds.len(),
{
    if ds.len() == 0 {
        None
    } else if ds[0].integration_id == intg && crate::strings::normalized(ds[0].name) == nm {
        Some(ds[0])
    } else {
        find_by_path(ds.subrange(1, ds.len() as int), intg, nm)
    }
}

proof fn lemma_find_by_key_skip(ds: Seq<DeviceS>, key: Seq<char>, i: int)
    requires
        0 <= i <= ds.len(),
        forall|j: int| 0 <= j < i ==> ds[j].key != key,
    ensures
        find_by_key(ds, key) == find_by_key(ds.subrange(i, ds.len() as int), key),
    decreases i,
{
    if i == 0 {
        assert(ds.subrange(0, ds.len() as int) =~= ds);
    } else {
        assert(forall|j: int| 0 <= j < i - 1
            ==> #[trigger] ds.subrange(1, ds.len() as int)[j].key != key);
        lemma_find_by_key_skip(ds.subrange(1, ds.len() as int), key, i - 1);
        assert(ds.subrange(1, ds.len() as int).subrange(i - 1, ds.len() - 1)
            =~= ds.subrange(i, ds.len() as int));
    }
}

proof fn lemma_find_by_path_skip(ds: Seq<DeviceS>, intg: Seq<char>, nm: Seq<char>, i: int)
    requires
        0 <= i <= ds.len(),
        forall|j: int| 0 <= j < i
            ==> !(ds[j].integration_id == intg && crate::strings::normalized(ds[j].name) == nm),
    ensures
        find_by_path(ds, intg, nm) == find_by_path(ds.subrange(i, ds.len() as int), intg, nm),
    decreases i,
{
    if i == 0 {
        assert(ds.subrange(0, ds.len() as int) =~= ds);
    } else {
        assert(forall|j: int| 0 <= j < i - 1
            ==> !((#[trigger] ds.subrange(1, ds.len() as int)[j]).integration_id == intg
                && crate::strings::normalized(ds.subrange(1, ds.len() as int)[j].name) == nm));
        lemma_find_by_path_skip(ds.subrange(1, ds.len() as int), intg, nm, i - 1);
        assert(ds.subrange(1, ds.len() as int).subrange(i - 1, ds.len() - 1)
            =~= ds.subrange(i, ds.len() as int));
    }
}

impl DevicesState {
    /// Looks a device up by key: the first match, as the mapping reads.
    pub fn get_by_key(&self, key: &str) -> (r: Option<&Device>)
        ensures
            match r {
                Some(d) => find_by_key(self.deep_view(), key@) == Some(d.deep_view()),
                None => find_by_key(self.deep_view(), key@) is None,
            },
    {
        let n: usize = self.0.len();
        let mut i: usize = 0;
        #[verifier::loop_isolation(false)]
        while i < n
            invariant
                i <= n,
                forall|j: int| 0 <= j < i ==> self.deep_view()[j].key != key@,
            decreases n - i,
        {
            if crate::strings::str_eq(self.0[i].key.as_str(), key) {
                proof {
                    lemma_find_by_key_skip(self.deep_view(), key@, i as int);
                    assert(self.deep_view().subrange(i as int, n as int)[0]
                        == self.deep_view()[i as int]);
                }
                return Some(&self.0[i]);
            }
            i = i + 1;
        }
        proof {
            lemma_find_by_key_skip(self.deep_view(), key@, n as int);
        }
        None
    }

    /// Resolves a diffed path's integration id and normalized device
    /// name back to a device: the first match, if any.
    pub fn get_by_path(&self, intg: &str, nm: &str) -> (r: Option<&Device>)
        ensures
            match r {
                Some(d) => find_by_path(self.deep_view(), intg@, nm@) == Some(d.deep_view()),
                None => find_by_path(self.deep_view(), intg@, nm@) is None,
            },
    {
        let n: usize = self.0.len();
        let mut i: usize = 0;
        #[verifier::loop_isolation(false)]
        while i < n
            invariant
                i <= n,
                forall|j: int| 0 <= j < i
                    ==> !(self.deep_view()[j].integration_id == intg@
                        && crate::strings::normalized(self.deep_view()[j].name) == nm@),
            decreases n - i,
        {
            let ie: bool = crate::strings::str_eq(self.0[i].integration_id.as_str(), intg);
            let norm: String = crate::strings::name_to_evalexpr(self.0[i].name.as_str());
            let ne: bool = crate::strings::str_eq(norm.as_str(), nm);
            if ie && ne {
                proof {
                    lemma_find_by_path_skip(self.deep_view(), intg@, nm@, i as int);
                    assert(self.deep_view().subrange(i as int, n as int)[0]
                        == self.deep_view()[i as int]);
                }
                return Some(&self.0[i]);
            }
            i = i + 1;
        }
        proof {
            lemma_find_by_path_skip(self.deep_view(), intg@, nm@, n as int);
        }
        None
    }
}

/// One scene, flattened: device key -> full state override.
#[derive(Debug)]
pub struct FlattenedSceneConfig {
    pub devices: Vec<(String, TreeValue)>,
}

/// Every scene, flattened against current device state by the scenes
/// collaborator: scene id -> overrides.
#[derive(Debug)]
pub struct FlattenedScenesConfig(pub Vec<(String, FlattenedSceneConfig)>);

impl DeepView for FlattenedScenesConfig {
    type V = Seq<(Seq<char>, Seq<(Seq<char>, TreeS)>)>;

    open spec fn deep_view(&self) -> Seq<(Seq<char>, Seq<(Seq<char>, TreeS)>)> {
        Seq::new(self.0@.len(), |i: int| (self.0@[i].0@, fields_dv(self.0@[i].1.devices@)))
    }
}

/// What the groups collaborator derives from (groups, devices):
/// already-path-keyed values, consumed opaquely by the builder.
#[derive(Debug)]
pub struct FlattenedGroupsConfig(pub Vec<(String, TreeValue)>);

impl DeepView for FlattenedGroupsConfig {
    type V = Seq<(Seq<char>, TreeS)>;

    open spec fn deep_view(&self) -> Seq<(Seq<char>, TreeS)> {
        fields_dv(self.0@)
    }
}

} // verus!
