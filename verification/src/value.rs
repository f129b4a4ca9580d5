//! The two value shapes of the core.
//!
//! [`TreeValue`] is the arbitrary structured value a device or scene
//! carries: a tree of objects, arrays and scalar leaves.  [`Scalar`] is a
//! namespace scalar: what one entry of the flat evaluation namespace may
//! hold — a boolean, an integer, a string, null, or an ordered tuple.
//! Nested structures are flattened before they enter the namespace and
//! are never stored there as-is.

use vstd::prelude::*;

verus! {

broadcast use vstd::std_specs::vec::group_vec_axioms, vstd::seq::group_seq_axioms;

/// A namespace scalar value.
#[derive(Debug)]
pub enum Scalar {
    Bool(bool),
    Int(i64),
    Str(String),
    Null,
    Tuple(Vec<Scalar>),
}

/// The mathematical model of a [`Scalar`].
pub ghost enum ScalarS {
    Bool(bool),
    Int(int),
    Str(Seq<char>),
    Null,
    Tuple(Seq<ScalarS>),
}

/// A structured value: what a device's current value or a scene's
/// state override looks like before flattening.
#[derive(Debug)]
pub enum TreeValue {
    Null,
    Bool(bool),
    Int(i64),
    Str(String),
    Array(Vec<TreeValue>),
    Object(Vec<(String, TreeValue)>),
}

/// The mathematical model of a [`TreeValue`].
pub ghost enum TreeS {
    Null,
    Bool(bool),
    Int(int),
    Str(Seq<char>),
    Array(Seq<TreeS>),
    Object(Seq<(Seq<char>, TreeS)>),
}

pub open spec fn value_dv(v: Scalar) -> ScalarS
    decreases v,
    via value_dv_dec
{
    match v {
        Scalar::Bool(b) => ScalarS::Bool(b),
        Scalar::Int(i) => ScalarS::Int(i as int),
        Scalar::Str(s) => ScalarS::Str(s@),
        Scalar::Null => ScalarS::Null,
        Scalar::Tuple(vs) => ScalarS::Tuple(values_dv(vs@)),
    }
}

#[via_fn]
proof fn value_dv_dec(v: Scalar) {
    if let Scalar::Tuple(vs) = v {
        assert(decreases_to!(vs => vs@));
    }
}

pub open spec fn values_dv(vs: Seq<Scalar>) -> Seq<ScalarS>
    decreases vs,
    via values_dv_dec
{
    if vs.len() == 0 {
        Seq::empty()
    } else {
        seq![value_dv(vs[0])] + values_dv(vs.subrange(1, vs.len() as int))
    }
}

#[via_fn]
proof fn values_dv_dec(vs: Seq<Scalar>) {
    if vs.len() > 0 {
        assert(decreases_to!(vs => vs[0]));
        assert(decreases_to!(vs => vs.subrange(1, vs.len() as int)));
    }
}

/// Pointwise description of [`values_dv`].
pub proof fn lemma_values_dv(vs: Seq<Scalar>)
    ensures
        values_dv(vs).len() == vs.len(),
        forall|i: int| 0 <= i < vs.len() ==> values_dv(vs)[i] == value_dv(vs[i]),
    decreases vs.len(),
{
    if vs.len() > 0 {
        lemma_values_dv(vs.subrange(1, vs.len() as int));
    }
}

impl DeepView for Scalar {
    type V = ScalarS;

    open spec fn deep_view(&self) -> ScalarS {
        value_dv(*self)
    }
}

pub open spec fn tree_dv(t: TreeValue) -> TreeS
    decreases t,
    via tree_dv_dec
{
    match t {
        TreeValue::Null => TreeS::Null,
        TreeValue::Bool(b) => TreeS::Bool(b),
        TreeValue::Int(i) => TreeS::Int(i as int),
        TreeValue::Str(s) => TreeS::Str(s@),
        TreeValue::Array(ts) => TreeS::Array(trees_dv(ts@)),
        TreeValue::Object(fs) => TreeS::Object(fields_dv(fs@)),
    }
}

#[via_fn]
proof fn tree_dv_dec(t: TreeValue) {
    if let TreeValue::Array(ts) = t {
        assert(decreases_to!(ts => ts@));
    }
    if let TreeValue::Object(fs) = t {
        assert(decreases_to!(fs => fs@));
    }
}

pub open spec fn trees_dv(ts: Seq<TreeValue>) -> Seq<TreeS>
    decreases ts,
    via trees_dv_dec
{
    if ts.len() == 0 {
        Seq::empty()
    } else {
        seq![tree_dv(ts[0])] + trees_dv(ts.subrange(1, ts.len() as int))
    }
}

#[via_fn]
proof fn trees_dv_dec(ts: Seq<TreeValue>) {
    if ts.len() > 0 {
        assert(decreases_to!(ts => ts[0]));
        assert(decreases_to!(ts => ts.subrange(1, ts.len() as int)));
    }
}

pub open spec fn fields_dv(fs: Seq<(String, TreeValue)>) -> Seq<(Seq<char>, TreeS)>
    decreases fs,
    via fields_dv_dec
{
    if fs.len() == 0 {
        Seq::empty()
    } else {
        seq![(fs[0].0@, tree_dv(fs[0].1))] + fields_dv(fs.subrange(1, fs.len() as int))
    }
}

#[via_fn]
proof fn fields_dv_dec(fs: Seq<(String, TreeValue)>) {
    if fs.len() > 0 {
        assert(decreases_to!(fs => fs[0]));
        assert(decreases_to!(fs => fs.subrange(1, fs.len() as int)));
    }
}

/// Pointwise description of [`trees_dv`].
pub proof fn lemma_trees_dv(ts: Seq<TreeValue>)
    ensures
        trees_dv(ts).len() == ts.len(),
        forall|i: int| 0 <= i < ts.len() ==> trees_dv(ts)[i] == tree_dv(ts[i]),
    decreases ts.len(),
{
    if ts.len() > 0 {
        lemma_trees_dv(ts.subrange(1, ts.len() as int));
    }
}

/// Pointwise description of [`fields_dv`].
pub proof fn lemma_fields_dv(fs: Seq<(String, TreeValue)>)
    ensures
        fields_dv(fs).len() == fs.len(),
        forall|i: int| 0 <= i < fs.len()
            ==> fields_dv(fs)[i] == (fs[i].0@, tree_dv(fs[i].1)),
    decreases fs.len(),
{
    if fs.len() > 0 {
        lemma_fields_dv(fs.subrange(1, fs.len() as int));
    }
}

impl DeepView for TreeValue {
    type V = TreeS;

    open spec fn deep_view(&self) -> TreeS {
        tree_dv(*self)
    }
}

/// A scalar leaf: a tree node that is neither an object nor an array.
pub open spec fn tree_is_scalar(t: TreeS) -> bool {
    match t {
        TreeS::Array(_) => false,
        TreeS::Object(_) => false,
        _ => true,
    }
}

/// Copies a namespace scalar.
pub fn value_clone(v: &Scalar) -> (r: Scalar)
    ensures
        r.deep_view() == v.deep_view(),
    decreases *v,
{
    match v {
        Scalar::Bool(b) => Scalar::Bool(*b),
        Scalar::Int(i) => Scalar::Int(*i),
        Scalar::Str(s) => Scalar::Str(s.clone()),
        Scalar::Null => Scalar::Null,
        Scalar::Tuple(vs) => {
            let n: usize = vs.len();
            let mut out: Vec<Scalar> = Vec::new();
            let mut i: usize = 0;
            #[verifier::loop_isolation(false)]
            while i < n
                invariant
                    n == vs@.len(),
                    i <= n,
                    out@.len() == i,
                    forall|k: int|
                        0 <= k < i ==> value_dv(#[trigger] out@[k]) == value_dv(vs@[k]),
                decreases n - i,
            {
                proof {
                    assert(decreases_to!(vs => vs@));
                    assert(decreases_to!(vs@ => vs@[i as int]));
                }
                let e: Scalar = value_clone(&vs[i]);
                out.push(e);
                i = i + 1;
            }
            let r = Scalar::Tuple(out);
            proof {
                lemma_values_dv(out@);
                lemma_values_dv(vs@);
                assert(values_dv(out@) =~= values_dv(vs@));
            }
            r
        },
    }
}

impl Clone for Scalar {
    fn clone(&self) -> (r: Self)
        ensures
            r.deep_view() == self.deep_view(),
    {
        value_clone(self)
    }
}

/// Copies a structured value.
pub fn tree_clone(t: &TreeValue) -> (r: TreeValue)
    ensures
        r.deep_view() == t.deep_view(),
    decreases *t,
{
    match t {
        TreeValue::Null => TreeValue::Null,
        TreeValue::Bool(b) => TreeValue::Bool(*b),
        TreeValue::Int(i) => TreeValue::Int(*i),
        TreeValue::Str(s) => TreeValue::Str(s.clone()),
        TreeValue::Array(ts) => {
            let n: usize = ts.len();
            let mut out: Vec<TreeValue> = Vec::new();
            let mut i: usize = 0;
            #[verifier::loop_isolation(false)]
            while i < n
                invariant
                    n == ts@.len(),
                    i <= n,
                    out@.len() == i,
                    forall|k: int|
                        0 <= k < i ==> tree_dv(#[trigger] out@[k]) == tree_dv(ts@[k]),
                decreases n - i,
            {
                proof {
                    assert(decreases_to!(ts => ts@));
                    assert(decreases_to!(ts@ => ts@[i as int]));
                }
                let e: TreeValue = tree_clone(&ts[i]);
                out.push(e);
                i = i + 1;
            }
            let r = TreeValue::Array(out);
            proof {
                lemma_trees_dv(out@);
                lemma_trees_dv(ts@);
                assert(trees_dv(out@) =~= trees_dv(ts@));
            }
            r
        },
        TreeValue::Object(fs) => {
            let n: usize = fs.len();
            let mut out: Vec<(String, TreeValue)> = Vec::new();
            let mut i: usize = 0;
            #[verifier::loop_isolation(false)]
            while i < n
                invariant
                    n == fs@.len(),
                    i <= n,
                    out@.len() == i,
                    forall|k: int|
                        0 <= k < i ==> #[trigger] out@[k].0@ == fs@[k].0@
                            && tree_dv(out@[k].1) == tree_dv(fs@[k].1),
                decreases n - i,
            {
                proof {
                    assert(decreases_to!(fs => fs@));
                    assert(decreases_to!(fs@ => fs@[i as int]));
                    assert(decreases_to!(fs@[i as int] => fs@[i as int].1));
                }
                let key: String = fs[i].0.clone();
                let e: TreeValue = tree_clone(&fs[i].1);
                out.push((key, e));
                i = i + 1;
            }
            let r = TreeValue::Object(out);
            proof {
                lemma_fields_dv(out@);
                lemma_fields_dv(fs@);
                assert(fields_dv(out@) =~= fields_dv(fs@));
            }
            r
        },
    }
}

impl Clone for TreeValue {
    fn clone(&self) -> (r: Self)
        ensures
            r.deep_view() == self.deep_view(),
    {
        tree_clone(self)
    }
}

/// Structural equality of two namespace scalars.
pub fn value_eq(a: &Scalar, b: &Scalar) -> (r: bool)
    ensures
        r == (a.deep_view() == b.deep_view()),
    decreases *a,
{
    match (a, b) {
        (Scalar::Bool(x), Scalar::Bool(y)) => *x == *y,
        (Scalar::Int(x), Scalar::Int(y)) => *x == *y,
        (Scalar::Str(x), Scalar::Str(y)) => x.eq(y),
        (Scalar::Null, Scalar::Null) => true,
        (Scalar::Tuple(xs), Scalar::Tuple(ys)) => {
            proof {
                lemma_values_dv(xs@);
                lemma_values_dv(ys@);
            }
            if xs.len() != ys.len() {
                false
            } else {
                let n: usize = xs.len();
                let mut i: usize = 0;
                let mut eq: bool = true;
                #[verifier::loop_isolation(false)]
                while i < n
                    invariant
                        n == xs@.len(),
                        n == ys@.len(),
                        i <= n,
                        eq == (forall|k: int|
                            0 <= k < i ==> value_dv(xs@[k]) == value_dv(ys@[k])),
                    decreases n - i,
                {
                    proof {
                        assert(decreases_to!(xs => xs@));
                        assert(decreases_to!(xs@ => xs@[i as int]));
                    }
                    let e: bool = value_eq(&xs[i], &ys[i]);
                    eq = eq && e;
                    i = i + 1;
                }
                proof {
                    lemma_values_dv(xs@);
                    lemma_values_dv(ys@);
                    if eq {
                        assert(values_dv(xs@) =~= values_dv(ys@));
                    } else {
                        let k = choose|k: int|
                            0 <= k < n && value_dv(xs@[k]) != value_dv(ys@[k]);
                        assert(values_dv(xs@)[k] != values_dv(ys@)[k]);
                    }
                }
                eq
            }
        },
        _ => false,
    }
}

/// Structural equality of two structured values.
pub fn tree_eq(a: &TreeValue, b: &TreeValue) -> (r: bool)
    ensures
        r == (a.deep_view() == b.deep_view()),
    decreases *a,
{
    match (a, b) {
        (TreeValue::Null, TreeValue::Null) => true,
        (TreeValue::Bool(x), TreeValue::Bool(y)) => *x == *y,
        (TreeValue::Int(x), TreeValue::Int(y)) => *x == *y,
        (TreeValue::Str(x), TreeValue::Str(y)) => x.eq(y),
        (TreeValue::Array(xs), TreeValue::Array(ys)) => {
            proof {
                lemma_trees_dv(xs@);
                lemma_trees_dv(ys@);
            }
            if xs.len() != ys.len() {
                false
            } else {
                let n: usize = xs.len();
                let mut i: usize = 0;
                let mut eq: bool = true;
                #[verifier::loop_isolation(false)]
                while i < n
                    invariant
                        n == xs@.len(),
                        n == ys@.len(),
                        i <= n,
                        eq == (forall|k: int|
                            0 <= k < i ==> tree_dv(xs@[k]) == tree_dv(ys@[k])),
                    decreases n - i,
                {
                    proof {
                        assert(decreases_to!(xs => xs@));
                        assert(decreases_to!(xs@ => xs@[i as int]));
                    }
                    let e: bool = tree_eq(&xs[i], &ys[i]);
                    eq = eq && e;
                    i = i + 1;
                }
                proof {
                    lemma_trees_dv(xs@);
                    lemma_trees_dv(ys@);
                    if eq {
                        assert(trees_dv(xs@) =~= trees_dv(ys@));
                    } else {
                        let k = choose|k: int|
                            0 <= k < n && tree_dv(xs@[k]) != tree_dv(ys@[k]);
                        assert(trees_dv(xs@)[k] != trees_dv(ys@)[k]);
                    }
                }
                eq
            }
        },
        (TreeValue::Object(xs), TreeValue::Object(ys)) => {
            proof {
                lemma_fields_dv(xs@);
                lemma_fields_dv(ys@);
            }
            if xs.len() != ys.len() {
                false
            } else {
                let n: usize = xs.len();
                let mut i: usize = 0;
                let mut eq: bool = true;
                #[verifier::loop_isolation(false)]
                while i < n
                    invariant
                        n == xs@.len(),
                        n == ys@.len(),
                        i <= n,
                        eq == (forall|k: int|
                            0 <= k < i ==> #[trigger] fields_dv(xs@)[k]
                                == #[trigger] fields_dv(ys@)[k]),
                    decreases n - i,
                {
                    proof {
                        assert(decreases_to!(xs => xs@));
                        assert(decreases_to!(xs@ => xs@[i as int]));
                        assert(decreases_to!(xs@[i as int] => xs@[i as int].1));
                    }
                    let ke: bool = xs[i].0.eq(&ys[i].0);
                    let ve: bool = tree_eq(&xs[i].1, &ys[i].1);
                    proof {
                        if ke && ve {
                            assert(fields_dv(xs@)[i as int] == fields_dv(ys@)[i as int]);
                        } else {
                            assert(fields_dv(xs@)[i as int].0 == xs@[i as int].0@);
                            assert(fields_dv(ys@)[i as int].0 == ys@[i as int].0@);
                            assert(fields_dv(xs@)[i as int] != fields_dv(ys@)[i as int]);
                        }
                    }
                    eq = eq && ke && ve;
                    i = i + 1;
                }
                proof {
                    lemma_fields_dv(xs@);
                    lemma_fields_dv(ys@);
                    if eq {
                        assert(fields_dv(xs@) =~= fields_dv(ys@));
                    }
                }
                eq
            }
        },
        _ => false,
    }
}

/// The structured form of a namespace scalar: tuples become arrays,
/// everything else maps to the leaf of the same kind.
pub open spec fn value_as_tree(v: ScalarS) -> TreeS
    decreases v,
{
    match v {
        ScalarS::Bool(b) => TreeS::Bool(b),
        ScalarS::Int(i) => TreeS::Int(i),
        ScalarS::Str(s) => TreeS::Str(s),
        ScalarS::Null => TreeS::Null,
        ScalarS::Tuple(vs) => TreeS::Array(values_as_trees(vs)),
    }
}

pub open spec fn values_as_trees(vs: Seq<ScalarS>) -> Seq<TreeS>
    decreases vs,
    via values_as_trees_dec
{
    if vs.len() == 0 {
        Seq::empty()
    } else {
        seq![value_as_tree(vs[0])] + values_as_trees(vs.subrange(1, vs.len() as int))
    }
}

#[via_fn]
proof fn values_as_trees_dec(vs: Seq<ScalarS>) {
    if vs.len() > 0 {
        assert(decreases_to!(vs => vs[0]));
        assert(decreases_to!(vs => vs.subrange(1, vs.len() as int)));
    }
}

/// Pointwise description of [`values_as_trees`].
pub proof fn lemma_values_as_trees(vs: Seq<ScalarS>)
    ensures
        values_as_trees(vs).len() == vs.len(),
        forall|i: int| 0 <= i < vs.len() ==> values_as_trees(vs)[i] == value_as_tree(vs[i]),
    decreases vs.len(),
{
    if vs.len() > 0 {
        lemma_values_as_trees(vs.subrange(1, vs.len() as int));
    }
}

/// Converts a namespace scalar into its structured form.
pub fn value_to_tree(v: &Scalar) -> (r: TreeValue)
    ensures
        r.deep_view() == value_as_tree(v.deep_view()),
    decreases *v,
{
    match v {
        Scalar::Bool(b) => TreeValue::Bool(*b),
        Scalar::Int(i) => TreeValue::Int(*i),
        Scalar::Str(s) => TreeValue::Str(s.clone()),
        Scalar::Null => TreeValue::Null,
        Scalar::Tuple(vs) => {
            let n: usize = vs.len();
            let mut out: Vec<TreeValue> = Vec::new();
            let mut i: usize = 0;
            #[verifier::loop_isolation(false)]
            while i < n
                invariant
                    n == vs@.len(),
                    i <= n,
                    out@.len() == i,
                    forall|k: int|
                        0 <= k < i ==> tree_dv(#[trigger] out@[k])
                            == value_as_tree(value_dv(vs@[k])),
                decreases n - i,
            {
                proof {
                    assert(decreases_to!(vs => vs@));
                    assert(decreases_to!(vs@ => vs@[i as int]));
                }
                let t: TreeValue = value_to_tree(&vs[i]);
                out.push(t);
                i = i + 1;
            }
            let r = TreeValue::Array(out);
            proof {
                lemma_trees_dv(out@);
                lemma_values_dv(vs@);
                lemma_values_as_trees(values_dv(vs@));
                assert(trees_dv(out@) =~= values_as_trees(values_dv(vs@)));
            }
            r
        },
    }
}

} // verus!
