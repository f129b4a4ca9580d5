//! The structural-pointer side of the diff engine: dotted paths parsed
//! into segments, segment-wise assignment into a nested tree, and the
//! wildcard queries that pull scene and state leaves back out.

use vstd::prelude::*;
use crate::error::CoreError;
use crate::strings::{dec_str, usize_to_string, str_eq, chars_to_string};
use crate::value::{TreeValue, TreeS, tree_dv, tree_clone, fields_dv, trees_dv,
    lemma_fields_dv, lemma_trees_dv};

verus! {

broadcast use vstd::std_specs::vec::group_vec_axioms, vstd::seq::group_seq_axioms;

// ---------------------------------------------------------------------
// Parsing a dotted path into pointer segments.

/// One step of segment parsing: dots and slashes separate segments,
/// `~0` unescapes to `~`, `~1` to `/`; any other `~` is malformed.
pub open spec fn parse_loop(p: Seq<char>, done: Seq<Seq<char>>, cur: Seq<char>)
    -> Option<Seq<Seq<char>>>
    decreases p.len(),
{
    if p.len() == 0 {
        Some(done.push(cur))
    } else if p[0] == '.' || p[0] == '/' {
        parse_loop(p.subrange(1, p.len() as int), done.push(cur), Seq::empty())
    } else if p[0] == '~' {
        if p.len() >= 2 && p[1] == '0' {
            parse_loop(p.subrange(2, p.len() as int), done, cur.push('~'))
        } else if p.len() >= 2 && p[1] == '1' {
            parse_loop(p.subrange(2, p.len() as int), done, cur.push('/'))
        } else {
            None
        }
    } else {
        parse_loop(p.subrange(1, p.len() as int), done, cur.push(p[0]))
    }
}

/// The pointer segments of a dotted path, or `None` for a malformed
/// escape.
pub open spec fn parse_pointer(p: Seq<char>) -> Option<Seq<Seq<char>>> {
    parse_loop(p, Seq::empty(), Seq::empty())
}

/// Splits a dotted path into pointer segments.
pub fn parse_pointer_segments(path: &str) -> (r: Result<Vec<String>, CoreError>)
    ensures
        match r {
            Ok(segs) => parse_pointer(path@) == Some(segs.deep_view()),
            Err(e) => parse_pointer(path@) is None && e == CoreError::DiffEncoding,
        },
{
    let n: usize = path.unicode_len();
    let mut done: Vec<String> = Vec::new();
    let mut cur: Vec<char> = Vec::new();
    let mut i: usize = 0;
    proof {
        assert(path@.subrange(0, n as int) =~= path@);
        assert(done.deep_view() =~= Seq::<Seq<char>>::empty());
    }
    #[verifier::loop_isolation(false)]
    while i < n
        invariant
            i <= n,
            parse_pointer(path@)
                == parse_loop(path@.subrange(i as int, n as int), done.deep_view(), cur@),
        decreases n - i,
    {
        let ghost suf = path@.subrange(i as int, n as int);
        proof {
            assert(suf[0] == path@[i as int]);
            assert(suf.subrange(1, suf.len() as int) =~= path@.subrange(i + 1, n as int));
            if i + 2 <= n {
                assert(suf.subrange(2, suf.len() as int) =~= path@.subrange(i + 2, n as int));
            }
        }
        let c: char = path.get_char(i);
        if c == '.' || c == '/' {
            let seg: String = chars_to_string(&cur);
            let ghost done0 = done.deep_view();
            done.push(seg);
            cur = Vec::new();
            proof {
                assert(done.deep_view() =~= done0.push(seg@));
            }
            i = i + 1;
        } else if c == '~' {
            if i + 1 < n {
                let c2: char = path.get_char(i + 1);
                if c2 == '0' {
                    cur.push('~');
                    i = i + 2;
                } else if c2 == '1' {
                    cur.push('/');
                    i = i + 2;
                } else {
                    return Err(CoreError::DiffEncoding);
                }
            } else {
                proof {
                    assert(suf.len() == 1);
                }
                return Err(CoreError::DiffEncoding);
            }
        } else {
            cur.push(c);
            i = i + 1;
        }
    }
    proof {
        assert(path@.subrange(n as int, n as int).len() == 0);
    }
    let seg: String = chars_to_string(&cur);
    let ghost done0 = done.deep_view();
    done.push(seg);
    proof {
        assert(done.deep_view() =~= done0.push(cur@));
    }
    Ok(done)
}

// ---------------------------------------------------------------------
// Array indices.

/// The index a segment stands for in an array: the next free slot, a
/// number, or nothing.
pub ghost enum IndexS {
    Next,
    Num(int),
}

pub open spec fn is_digit(c: char) -> bool {
    '0' <= c && c <= '9'
}

pub open spec fn dec_val(s: Seq<char>) -> int
    decreases s.len(),
{
    if s.len() == 0 {
        0
    } else {
        dec_val(s.drop_last()) * 10 + ((s.last() as u32) - 48)
    }
}

/// How a segment reads as an array index: `-` is the next slot; a
/// canonical decimal (no leading zeros, no sign, within the machine
/// range) is that number; anything else is malformed.
pub open spec fn seg_index(s: Seq<char>) -> Option<IndexS> {
    if s == "-"@ {
        Some(IndexS::Next)
    } else if s.len() == 0 {
        None
    } else if exists|i: int| 0 <= i < s.len() && !is_digit(s[i]) {
        None
    } else if s.len() > 1 && s[0] == '0' {
        None
    } else if dec_val(s) > usize::MAX as int {
        None
    } else {
        Some(IndexS::Num(dec_val(s)))
    }
}

/// Parses a segment as an array index, as a structural pointer reads
/// it.
pub fn parse_index(seg: &str, arr_len: usize) -> (r: Option<usize>)
    ensures
        match r {
            Some(k) => (seg_index(seg@) == Some(IndexS::Next) && k == arr_len)
                || seg_index(seg@) == Some(IndexS::Num(k as int)),
            None => seg_index(seg@) is None,
        },
{
    if str_eq(seg, "-") {
        return Some(arr_len);
    }
    let n: usize = seg.unicode_len();
    if n == 0 {
        return None;
    }
    let c0: char = seg.get_char(0);
    if n > 1 && c0 == '0' {
        return None;
    }
    let mut acc: usize = 0;
    let mut i: usize = 0;
    #[verifier::loop_isolation(false)]
    while i < n
        invariant
            i <= n,
            n == seg@.len(),
            seg@ != "-"@,
            forall|k: int| 0 <= k < i ==> is_digit(seg@[k]),
            acc as int == dec_val(seg@.subrange(0, i as int)),
        decreases n - i,
    {
        let c: char = seg.get_char(i);
        if c < '0' || c > '9' {
            return None;
        }
        let d: u32 = (c as u32) - 48;
        if acc > (usize::MAX - (d as usize)) / 10 {
            proof {
                if forall|k: int| 0 <= k < n ==> is_digit(seg@[k]) {
                    let pre = seg@.subrange(0, (i + 1) as int);
                    assert(pre.drop_last() =~= seg@.subrange(0, i as int));
                    assert(pre.last() == seg@[i as int]);
                    assert(dec_val(pre) > usize::MAX as int) by (nonlinear_arith)
                        requires
                            dec_val(pre) == dec_val(pre.drop_last()) * 10
                                + ((pre.last() as u32) - 48),
                            pre.last() == seg@[i as int],
                            dec_val(pre.drop_last()) == acc as int,
                            acc > (usize::MAX - ((seg@[i as int] as u32 - 48) as usize)) / 10,
                            (seg@[i as int] as u32) >= 48,
                            (seg@[i as int] as u32) <= 57;
                    lemma_dec_val_prefix_grows(seg@, (i + 1) as int);
                }
            }
            return None;
        }
        proof {
            let pre = seg@.subrange(0, (i + 1) as int);
            assert(pre.drop_last() =~= seg@.subrange(0, i as int));
            assert(acc * 10 + (d as int) <= usize::MAX as int) by (nonlinear_arith)
                requires
                    d as u32 <= 9,
                    acc <= (usize::MAX - (d as usize)) / 10,
                    d == (seg@[i as int] as u32) - 48;
        }
        acc = acc * 10 + (d as usize);
        i = i + 1;
    }
    proof {
        assert(seg@.subrange(0, n as int) =~= seg@);
    }
    Some(acc)
}

/// An all-digit string has a non-negative value.
proof fn lemma_dec_val_nonneg(s: Seq<char>)
    requires
        forall|k: int| 0 <= k < s.len() ==> is_digit(s[k]),
    ensures
        dec_val(s) >= 0,
    decreases s.len(),
{
    if s.len() > 0 {
        assert(forall|k: int| 0 <= k < s.drop_last().len()
            ==> is_digit(#[trigger] s.drop_last()[k]));
        lemma_dec_val_nonneg(s.drop_last());
        assert(is_digit(s.last()));
        assert(dec_val(s) >= 0) by (nonlinear_arith)
            requires
                dec_val(s) == dec_val(s.drop_last()) * 10 + ((s.last() as u32) - 48),
                dec_val(s.drop_last()) >= 0,
                (s.last() as u32) >= 48;
    }
}

/// A longer all-digit prefix never shrinks the value.
proof fn lemma_dec_val_prefix_grows(s: Seq<char>, i: int)
    requires
        0 <= i <= s.len(),
        forall|k: int| 0 <= k < s.len() ==> is_digit(s[k]),
    ensures
        dec_val(s) >= dec_val(s.subrange(0, i)),
    decreases s.len() - i,
{
    if i < s.len() {
        lemma_dec_val_prefix_grows(s, i + 1);
        let p1 = s.subrange(0, i + 1);
        let p0 = s.subrange(0, i);
        assert(p1.drop_last() =~= p0);
        assert(forall|k: int| 0 <= k < p0.len() ==> is_digit(#[trigger] p0[k]));
        lemma_dec_val_nonneg(p0);
        assert(dec_val(p1) >= dec_val(p0)) by (nonlinear_arith)
            requires
                dec_val(p1) == dec_val(p0) * 10 + ((p1.last() as u32) - 48),
                dec_val(p0) >= 0,
                (p1.last() as u32) >= 48;
    } else {
        assert(s.subrange(0, s.len() as int) =~= s);
    }
}

// ---------------------------------------------------------------------
// Expansion and assignment.

/// The chain a structural pointer builds for a missing path: a `0` or
/// `-` segment opens an array, anything else an object.
pub open spec fn expand_chain(segs: Seq<Seq<char>>, i: int, v: TreeS) -> TreeS
    decreases segs.len() - i,
{
    if i >= segs.len() {
        v
    } else if segs[i] == "0"@ || segs[i] == "-"@ {
        TreeS::Array(seq![expand_chain(segs, i + 1, v)])
    } else {
        TreeS::Object(seq![(segs[i], expand_chain(segs, i + 1, v))])
    }
}

/// Builds the chain for the segments from `i` on, ending in `v`.
pub fn expand_exec(segs: &Vec<String>, i: usize, v: &TreeValue) -> (r: TreeValue)
    requires
        i <= segs@.len(),
    ensures
        tree_dv(r) == expand_chain(segs.deep_view(), i as int, tree_dv(*v)),
    decreases segs@.len() - i,
{
    if i >= segs.len() {
        tree_clone(v)
    } else {
        let inner: TreeValue = expand_exec(segs, i + 1, v);
        if str_eq(segs[i].as_str(), "0") || str_eq(segs[i].as_str(), "-") {
            let mut elems: Vec<TreeValue> = Vec::new();
            elems.push(inner);
            let r = TreeValue::Array(elems);
            proof {
                lemma_trees_dv(elems@);
                assert(trees_dv(elems@)
                    =~= seq![expand_chain(segs.deep_view(), i + 1, tree_dv(*v))]);
            }
            r
        } else {
            let mut fs: Vec<(String, TreeValue)> = Vec::new();
            fs.push((segs[i].clone(), inner));
            let r = TreeValue::Object(fs);
            proof {
                lemma_fields_dv(fs@);
                assert(fields_dv(fs@)
                    =~= seq![
                        (segs.deep_view()[i as int],
                        expand_chain(segs.deep_view(), i + 1, tree_dv(*v))),
                    ]);
            }
            r
        }
    }
}

/// Assignment through an object's fields: the first field with the
/// segment's key is descended into; a missing key appends the expanded
/// chain.
pub open spec fn assign_fields(
    fs: Seq<(Seq<char>, TreeS)>,
    segs: Seq<Seq<char>>,
    i: int,
    v: TreeS,
) -> Option<Seq<(Seq<char>, TreeS)>>
    decreases segs.len() - i, 0int, fs.len(),
{
    if i >= segs.len() {
        None
    } else if fs.len() == 0 {
        Some(seq![(segs[i], expand_chain(segs, i + 1, v))])
    } else if fs[0].0 == segs[i] {
        match assign_spec(fs[0].1, segs, i + 1, v) {
            None => None,
            Some(t2) => Some(seq![(fs[0].0, t2)] + fs.subrange(1, fs.len() as int)),
        }
    } else {
        match assign_fields(fs.subrange(1, fs.len() as int), segs, i, v) {
            None => None,
            Some(r) => Some(seq![fs[0]] + r),
        }
    }
}

/// Assigning a value at a pointer, as a structural pointer does it:
/// objects gain or descend by key, arrays by canonical index (one past
/// the end appends), and a scalar in the way is replaced by the
/// expanded chain.  `None` is a malformed or out-of-range index.
pub open spec fn assign_spec(t: TreeS, segs: Seq<Seq<char>>, i: int, v: TreeS) -> Option<TreeS>
    decreases segs.len() - i, 1int, 0int,
{
    if i >= segs.len() {
        Some(v)
    } else {
        match t {
            TreeS::Object(fs) => match assign_fields(fs, segs, i, v) {
                None => None,
                Some(fs2) => Some(TreeS::Object(fs2)),
            },
            TreeS::Array(ts) => match seg_index(segs[i]) {
                None => None,
                Some(IndexS::Next) => Some(
                    TreeS::Array(ts.push(expand_chain(segs, i + 1, v))),
                ),
                Some(IndexS::Num(k)) => if k < ts.len() {
                    match assign_spec(ts[k], segs, i + 1, v) {
                        None => None,
                        Some(t2) => Some(TreeS::Array(ts.update(k, t2))),
                    }
                } else if k == ts.len() {
                    Some(TreeS::Array(ts.push(expand_chain(segs, i + 1, v))))
                } else {
                    None
                },
            },
            _ => Some(expand_chain(segs, i, v)),
        }
    }
}

/// Where the key stands at field `j` past a key-free prefix,
/// `assign_fields` descends exactly there.
proof fn lemma_assign_fields_at(
    fs: Seq<(Seq<char>, TreeS)>,
    segs: Seq<Seq<char>>,
    i: int,
    v: TreeS,
    j: int,
)
    requires
        0 <= i < segs.len(),
        0 <= j < fs.len(),
        fs[j].0 == segs[i],
        forall|k: int| 0 <= k < j ==> fs[k].0 != segs[i],
    ensures
        assign_fields(fs, segs, i, v) == match assign_spec(fs[j].1, segs, i + 1, v) {
            None => None::<Seq<(Seq<char>, TreeS)>>,
            Some(t2) => Some(fs.update(j, (fs[j].0, t2))),
        },
    decreases j,
{
    if j == 0 {
        match assign_spec(fs[0].1, segs, i + 1, v) {
            None => {},
            Some(t2) => {
                assert(seq![(fs[0].0, t2)] + fs.subrange(1, fs.len() as int)
                    =~= fs.update(0, (fs[0].0, t2)));
            },
        }
    } else {
        let tail = fs.subrange(1, fs.len() as int);
        assert(forall|k: int| 0 <= k < j - 1 ==> (#[trigger] tail[k]).0 != segs[i]);
        lemma_assign_fields_at(tail, segs, i, v, j - 1);
        match assign_spec(fs[j].1, segs, i + 1, v) {
            None => {},
            Some(t2) => {
                assert(seq![fs[0]] + tail.update(j - 1, (fs[j].0, t2))
                    =~= fs.update(j, (fs[j].0, t2)));
            },
        }
    }
}

/// Where no field holds the key, `assign_fields` appends the chain.
proof fn lemma_assign_fields_absent(
    fs: Seq<(Seq<char>, TreeS)>,
    segs: Seq<Seq<char>>,
    i: int,
    v: TreeS,
)
    requires
        0 <= i < segs.len(),
        forall|k: int| 0 <= k < fs.len() ==> fs[k].0 != segs[i],
    ensures
        assign_fields(fs, segs, i, v)
            == Some(fs.push((segs[i], expand_chain(segs, i + 1, v)))),
    decreases fs.len(),
{
    if fs.len() == 0 {
        assert(seq![(segs[i], expand_chain(segs, i + 1, v))]
            =~= fs.push((segs[i], expand_chain(segs, i + 1, v))));
    } else {
        let tail = fs.subrange(1, fs.len() as int);
        assert(forall|k: int| 0 <= k < tail.len() ==> (#[trigger] tail[k]).0 != segs[i]);
        lemma_assign_fields_absent(tail, segs, i, v);
        assert(seq![fs[0]] + tail.push((segs[i], expand_chain(segs, i + 1, v)))
            =~= fs.push((segs[i], expand_chain(segs, i + 1, v))));
    }
}

/// Assigns a value at the segments from `i` on, returning the new
/// tree.
pub fn assign(t: &TreeValue, segs: &Vec<String>, i: usize, v: &TreeValue)
    -> (r: Result<TreeValue, CoreError>)
    requires
        i <= segs@.len(),
    ensures
        match r {
            Ok(t2) => assign_spec(tree_dv(*t), segs.deep_view(), i as int, tree_dv(*v))
                == Some(tree_dv(t2)),
            Err(e) => assign_spec(tree_dv(*t), segs.deep_view(), i as int, tree_dv(*v))
                is None && e == CoreError::DiffEncoding,
        },
    decreases segs@.len() - i,
{
    let ghost sg = segs.deep_view();
    if i >= segs.len() {
        return Ok(tree_clone(v));
    }
    match t {
        TreeValue::Object(fs) => {
            proof {
                lemma_fields_dv(fs@);
            }
            let nf: usize = fs.len();
            let mut j: usize = 0;
            let mut found: bool = false;
            #[verifier::loop_isolation(false)]
            while j < nf && !found
                invariant
                    j <= nf,
                    found ==> j < nf && fields_dv(fs@)[j as int].0 == sg[i as int],
                    forall|k: int| 0 <= k < j ==> fields_dv(fs@)[k].0 != sg[i as int],
                decreases nf - j + (if found { 0int } else { 1int }),
            {
                if str_eq(fs[j].0.as_str(), segs[i].as_str()) {
                    found = true;
                } else {
                    j = j + 1;
                }
            }
            if found {
                let sub: TreeValue = match assign(&fs[j].1, segs, i + 1, v) {
                    Ok(t2) => t2,
                    Err(e) => {
                        proof {
                            lemma_assign_fields_at(fields_dv(fs@), sg, i as int,
                                tree_dv(*v), j as int);
                        }
                        return Err(e);
                    },
                };
                let mut out: Vec<(String, TreeValue)> = Vec::new();
                let mut k: usize = 0;
                #[verifier::loop_isolation(false)]
                while k < nf
                    invariant
                        k <= nf,
                        out@.len() == k,
                        forall|m: int| 0 <= m < k ==> #[trigger] fields_dv(out@)[m]
                            == if m == j {
                                (fields_dv(fs@)[m].0, tree_dv(sub))
                            } else {
                                fields_dv(fs@)[m]
                            },
                    decreases nf - k,
                {
                    let ghost out0 = out@;
                    if k == j {
                        out.push((fs[k].0.clone(), tree_clone(&sub)));
                    } else {
                        out.push((fs[k].0.clone(), tree_clone(&fs[k].1)));
                    }
                    proof {
                        lemma_fields_dv(out@);
                        lemma_fields_dv(out0);
                        assert(forall|m: int| 0 <= m < k ==> out@[m] == out0[m]);
                        assert forall|m: int| 0 <= m < k + 1
                            implies #[trigger] fields_dv(out@)[m]
                                == if m == j {
                                    (fields_dv(fs@)[m].0, tree_dv(sub))
                                } else {
                                    fields_dv(fs@)[m]
                                } by {
                            if m < k {
                                assert(fields_dv(out0)[m] == if m == j {
                                    (fields_dv(fs@)[m].0, tree_dv(sub))
                                } else {
                                    fields_dv(fs@)[m]
                                });
                                assert(fields_dv(out@)[m] == (out@[m].0@, tree_dv(out@[m].1)));
                                assert(fields_dv(out0)[m] == (out0[m].0@, tree_dv(out0[m].1)));
                            }
                        }
                    }
                    k = k + 1;
                }
                let r = TreeValue::Object(out);
                proof {
                    lemma_fields_dv(out@);
                    lemma_assign_fields_at(fields_dv(fs@), sg, i as int, tree_dv(*v), j as int);
                    assert(fields_dv(out@)
                        =~= fields_dv(fs@).update(j as int,
                            (fields_dv(fs@)[j as int].0, tree_dv(sub))));
                }
                Ok(r)
            } else {
                let chain: TreeValue = expand_exec(segs, i + 1, v);
                let mut out: Vec<(String, TreeValue)> = Vec::new();
                let mut k: usize = 0;
                #[verifier::loop_isolation(false)]
                while k < nf
                    invariant
                        k <= nf,
                        out@.len() == k,
                        forall|m: int| 0 <= m < k
                            ==> #[trigger] fields_dv(out@)[m] == fields_dv(fs@)[m],
                    decreases nf - k,
                {
                    let ghost out0 = out@;
                    out.push((fs[k].0.clone(), tree_clone(&fs[k].1)));
                    proof {
                        lemma_fields_dv(out@);
                        lemma_fields_dv(out0);
                        assert(forall|m: int| 0 <= m < k ==> out@[m] == out0[m]);
                        assert forall|m: int| 0 <= m < k + 1
                            implies #[trigger] fields_dv(out@)[m] == fields_dv(fs@)[m] by {
                            if m < k {
                                assert(fields_dv(out0)[m] == fields_dv(fs@)[m]);
                                assert(fields_dv(out@)[m] == (out@[m].0@, tree_dv(out@[m].1)));
                                assert(fields_dv(out0)[m] == (out0[m].0@, tree_dv(out0[m].1)));
                            }
                        }
                    }
                    k = k + 1;
                }
                let ghost outp = out@;
                out.push((segs[i].clone(), chain));
                let r = TreeValue::Object(out);
                proof {
                    lemma_fields_dv(out@);
                    lemma_fields_dv(outp);
                    assert(forall|m: int| 0 <= m < nf ==> out@[m] == outp[m]);
                    assert forall|m: int| 0 <= m < nf
                        implies #[trigger] fields_dv(out@)[m] == fields_dv(fs@)[m] by {
                        assert(fields_dv(outp)[m] == fields_dv(fs@)[m]);
                        assert(fields_dv(out@)[m] == (out@[m].0@, tree_dv(out@[m].1)));
                        assert(fields_dv(outp)[m] == (outp[m].0@, tree_dv(outp[m].1)));
                    }
                    lemma_assign_fields_absent(fields_dv(fs@), sg, i as int, tree_dv(*v));
                    assert(fields_dv(out@)
                        =~= fields_dv(fs@).push((sg[i as int],
                            expand_chain(sg, i + 1, tree_dv(*v)))));
                }
                Ok(r)
            }
        },
        TreeValue::Array(ts) => {
            proof {
                lemma_trees_dv(ts@);
            }
            let nt: usize = ts.len();
            match parse_index(segs[i].as_str(), nt) {
                None => Err(CoreError::DiffEncoding),
                Some(idx) => {
                    if idx < nt {
                        let sub: TreeValue = match assign(&ts[idx], segs, i + 1, v) {
                            Ok(t2) => t2,
                            Err(e) => {
                                return Err(e);
                            },
                        };
                        let mut out: Vec<TreeValue> = Vec::new();
                        let mut k: usize = 0;
                        #[verifier::loop_isolation(false)]
                        while k < nt
                            invariant
                                k <= nt,
                                out@.len() == k,
                                forall|m: int| 0 <= m < k ==> #[trigger] trees_dv(out@)[m]
                                    == if m == idx {
                                        tree_dv(sub)
                                    } else {
                                        trees_dv(ts@)[m]
                                    },
                            decreases nt - k,
                        {
                            let ghost out0 = out@;
                            if k == idx {
                                out.push(tree_clone(&sub));
                            } else {
                                out.push(tree_clone(&ts[k]));
                            }
                            proof {
                                lemma_trees_dv(out@);
                                lemma_trees_dv(out0);
                                assert(forall|m: int| 0 <= m < k ==> out@[m] == out0[m]);
                                assert forall|m: int| 0 <= m < k + 1
                                    implies #[trigger] trees_dv(out@)[m]
                                        == if m == idx {
                                            tree_dv(sub)
                                        } else {
                                            trees_dv(ts@)[m]
                                        } by {
                                    if m < k {
                                        assert(trees_dv(out0)[m] == if m == idx {
                                            tree_dv(sub)
                                        } else {
                                            trees_dv(ts@)[m]
                                        });
                                        assert(trees_dv(out@)[m] == tree_dv(out@[m]));
                                        assert(trees_dv(out0)[m] == tree_dv(out0[m]));
                                    }
                                }
                            }
                            k = k + 1;
                        }
                        let r = TreeValue::Array(out);
                        proof {
                            lemma_trees_dv(out@);
                            assert(trees_dv(out@)
                                =~= trees_dv(ts@).update(idx as int, tree_dv(sub)));
                        }
                        Ok(r)
                    } else if idx == nt {
                        let chain: TreeValue = expand_exec(segs, i + 1, v);
                        let mut out: Vec<TreeValue> = Vec::new();
                        let mut k: usize = 0;
                        #[verifier::loop_isolation(false)]
                        while k < nt
                            invariant
                                k <= nt,
                                out@.len() == k,
                                forall|m: int| 0 <= m < k
                                    ==> #[trigger] trees_dv(out@)[m] == trees_dv(ts@)[m],
                            decreases nt - k,
                        {
                            let ghost out0 = out@;
                            out.push(tree_clone(&ts[k]));
                            proof {
                                lemma_trees_dv(out@);
                                lemma_trees_dv(out0);
                                assert(forall|m: int| 0 <= m < k ==> out@[m] == out0[m]);
                                assert forall|m: int| 0 <= m < k + 1
                                    implies #[trigger] trees_dv(out@)[m] == trees_dv(ts@)[m]
                                    by {
                                    if m < k {
                                        assert(trees_dv(out0)[m] == trees_dv(ts@)[m]);
                                        assert(trees_dv(out@)[m] == tree_dv(out@[m]));
                                        assert(trees_dv(out0)[m] == tree_dv(out0[m]));
                                    }
                                }
                            }
                            k = k + 1;
                        }
                        let ghost outp = out@;
                        out.push(chain);
                        let r = TreeValue::Array(out);
                        proof {
                            lemma_trees_dv(out@);
                            lemma_trees_dv(outp);
                            assert(forall|m: int| 0 <= m < nt ==> out@[m] == outp[m]);
                            assert forall|m: int| 0 <= m < nt
                                implies #[trigger] trees_dv(out@)[m] == trees_dv(ts@)[m] by {
                                assert(trees_dv(outp)[m] == trees_dv(ts@)[m]);
                                assert(trees_dv(out@)[m] == tree_dv(out@[m]));
                                assert(trees_dv(outp)[m] == tree_dv(outp[m]));
                            }
                            assert(trees_dv(out@)
                                =~= trees_dv(ts@).push(expand_chain(sg, i + 1, tree_dv(*v))));
                        }
                        Ok(r)
                    } else {
                        Err(CoreError::DiffEncoding)
                    }
                },
            }
        },
        _ => {
            Ok(expand_exec(segs, i, v))
        },
    }
}

// ---------------------------------------------------------------------
// Wildcard queries.

/// First field with the given key, if any.
pub open spec fn obj_get(fs: Seq<(Seq<char>, TreeS)>, k: Seq<char>) -> Option<TreeS>
    decreases fs.len(),
{
    if fs.len() == 0 {
        None
    } else if fs[0].0 == k {
        Some(fs[0].1)
    } else {
        obj_get(fs.subrange(1, fs.len() as int), k)
    }
}

proof fn lemma_obj_get_skip(fs: Seq<(Seq<char>, TreeS)>, k: Seq<char>, i: int)
    requires
        0 <= i <= fs.len(),
        forall|j: int| 0 <= j < i ==> fs[j].0 != k,
    ensures
        obj_get(fs, k) == obj_get(fs.subrange(i, fs.len() as int), k),
    decreases i,
{
    if i == 0 {
        assert(fs.subrange(0, fs.len() as int) =~= fs);
    } else {
        assert(forall|j: int| 0 <= j < i - 1
            ==> (#[trigger] fs.subrange(1, fs.len() as int)[j]).0 != k);
        lemma_obj_get_skip(fs.subrange(1, fs.len() as int), k, i - 1);
        assert(fs.subrange(1, fs.len() as int).subrange(i - 1, fs.len() - 1)
            =~= fs.subrange(i, fs.len() as int));
    }
}

/// Reads the first field with the given key out of an object node.
pub fn obj_get_exec<'a>(t: &'a TreeValue, k: &str) -> (r: Option<&'a TreeValue>)
    ensures
        match r {
            Some(v) => match tree_dv(*t) {
                TreeS::Object(fs) => obj_get(fs, k@) == Some(tree_dv(*v)),
                _ => false,
            },
            None => match tree_dv(*t) {
                TreeS::Object(fs) => obj_get(fs, k@) is None,
                _ => true,
            },
        },
{
    match t {
        TreeValue::Object(fs) => {
            proof {
                lemma_fields_dv(fs@);
            }
            let n: usize = fs.len();
            let mut i: usize = 0;
            #[verifier::loop_isolation(false)]
            while i < n
                invariant
                    i <= n,
                    forall|j: int| 0 <= j < i ==> fields_dv(fs@)[j].0 != k@,
                decreases n - i,
            {
                if str_eq(fs[i].0.as_str(), k) {
                    proof {
                        lemma_obj_get_skip(fields_dv(fs@), k@, i as int);
                        assert(fields_dv(fs@).subrange(i as int, n as int)[0]
                            == fields_dv(fs@)[i as int]);
                    }
                    return Some(&fs[i].1);
                }
                i = i + 1;
            }
            proof {
                lemma_obj_get_skip(fields_dv(fs@), k@, n as int);
            }
            None
        },
        _ => None,
    }
}

/// A node's children, as (segment, child) pairs: an object's fields,
/// or an array's elements named by index.  Scalars have none.
pub open spec fn children(t: TreeS) -> Seq<(Seq<char>, TreeS)> {
    match t {
        TreeS::Object(fs) => fs,
        TreeS::Array(ts) => Seq::new(ts.len(), |i: int| (dec_str(i), ts[i])),
        _ => Seq::empty(),
    }
}

/// Copies a node's children out as (segment, child) pairs.
pub fn children_exec(t: &TreeValue) -> (r: Vec<(String, TreeValue)>)
    ensures
        fields_dv(r@) =~= children(tree_dv(*t)),
{
    match t {
        TreeValue::Object(fs) => {
            let mut out: Vec<(String, TreeValue)> = Vec::new();
            let n: usize = fs.len();
            let mut i: usize = 0;
            proof {
                lemma_fields_dv(fs@);
            }
            #[verifier::loop_isolation(false)]
            while i < n
                invariant
                    i <= n,
                    out@.len() == i,
                    forall|m: int| 0 <= m < i
                        ==> #[trigger] fields_dv(out@)[m] == fields_dv(fs@)[m],
                decreases n - i,
            {
                let ghost out0 = out@;
                out.push((fs[i].0.clone(), tree_clone(&fs[i].1)));
                proof {
                    lemma_fields_dv(out@);
                    lemma_fields_dv(out0);
                    assert(forall|m: int| 0 <= m < i ==> out@[m] == out0[m]);
                    assert forall|m: int| 0 <= m < i + 1
                        implies #[trigger] fields_dv(out@)[m] == fields_dv(fs@)[m] by {
                        if m < i {
                            assert(fields_dv(out0)[m] == fields_dv(fs@)[m]);
                            assert(fields_dv(out@)[m] == (out@[m].0@, tree_dv(out@[m].1)));
                            assert(fields_dv(out0)[m] == (out0[m].0@, tree_dv(out0[m].1)));
                        }
                    }
                }
                i = i + 1;
            }
            proof {
                lemma_fields_dv(out@);
            }
            out
        },
        TreeValue::Array(ts) => {
            let mut out: Vec<(String, TreeValue)> = Vec::new();
            let n: usize = ts.len();
            let mut i: usize = 0;
            proof {
                lemma_trees_dv(ts@);
            }
            #[verifier::loop_isolation(false)]
            while i < n
                invariant
                    i <= n,
                    out@.len() == i,
                    forall|m: int| 0 <= m < i ==> #[trigger] fields_dv(out@)[m]
                        == (dec_str(m), trees_dv(ts@)[m]),
                decreases n - i,
            {
                let ghost out0 = out@;
                let seg: String = usize_to_string(i);
                out.push((seg, tree_clone(&ts[i])));
                proof {
                    lemma_fields_dv(out@);
                    lemma_fields_dv(out0);
                    assert(forall|m: int| 0 <= m < i ==> out@[m] == out0[m]);
                    assert forall|m: int| 0 <= m < i + 1
                        implies #[trigger] fields_dv(out@)[m]
                            == (dec_str(m), trees_dv(ts@)[m]) by {
                        if m < i {
                            assert(fields_dv(out0)[m] == (dec_str(m), trees_dv(ts@)[m]));
                            assert(fields_dv(out@)[m] == (out@[m].0@, tree_dv(out@[m].1)));
                            assert(fields_dv(out0)[m] == (out0[m].0@, tree_dv(out0[m].1)));
                        }
                    }
                }
                i = i + 1;
            }
            proof {
                lemma_fields_dv(out@);
            }
            out
        },
        _ => {
            let out: Vec<(String, TreeValue)> = Vec::new();
            proof {
                lemma_fields_dv(out@);
            }
            out
        },
    }
}

/// The matches of `$.devices.*.*.<last>` at the second wildcard level:
/// for each child of `c1`, its field named `last`, if present.
pub open spec fn query_level2(n1: Seq<char>, cs: Seq<(Seq<char>, TreeS)>, last: Seq<char>)
    -> Seq<(Seq<char>, Seq<char>, TreeS)>
    decreases cs.len(),
{
    if cs.len() == 0 {
        Seq::empty()
    } else {
        (match cs[0].1 {
            TreeS::Object(fs) => match obj_get(fs, last) {
                Some(leaf) => seq![(n1, cs[0].0, leaf)],
                None => Seq::empty(),
            },
            _ => Seq::empty(),
        }) + query_level2(n1, cs.subrange(1, cs.len() as int), last)
    }
}

/// The matches at the first wildcard level.
pub open spec fn query_level1(cs: Seq<(Seq<char>, TreeS)>, last: Seq<char>)
    -> Seq<(Seq<char>, Seq<char>, TreeS)>
    decreases cs.len(),
{
    if cs.len() == 0 {
        Seq::empty()
    } else {
        query_level2(cs[0].0, children(cs[0].1), last)
            + query_level1(cs.subrange(1, cs.len() as int), last)
    }
}

/// The matches of the structural query `$.devices.*.*.<last>` against
/// a tree: (integration segment, name segment, leaf value) triples, in
/// tree order.
pub open spec fn query_spec(t: TreeS, last: Seq<char>) -> Seq<(Seq<char>, Seq<char>, TreeS)> {
    match t {
        TreeS::Object(fs) => match obj_get(fs, "devices"@) {
            Some(d) => query_level1(children(d), last),
            None => Seq::empty(),
        },
        _ => Seq::empty(),
    }
}

/// The deep view of a query result vector.
pub open spec fn triples_dv(ms: Seq<(String, String, TreeValue)>)
    -> Seq<(Seq<char>, Seq<char>, TreeS)> {
    Seq::new(ms.len(), |i: int| (ms[i].0@, ms[i].1@, tree_dv(ms[i].2)))
}

/// Runs the structural query `$.devices.*.*.<last>` against a tree.
pub fn query(t: &TreeValue, last: &str) -> (r: Vec<(String, String, TreeValue)>)
    ensures
        triples_dv(r@) =~= query_spec(tree_dv(*t), last@),
{
    let mut out: Vec<(String, String, TreeValue)> = Vec::new();
    let dev: &TreeValue = match obj_get_exec(t, "devices") {
        Some(d) => d,
        None => {
            proof {
                assert(triples_dv(out@) =~= query_spec(tree_dv(*t), last@));
            }
            return out;
        },
    };
    let level1: Vec<(String, TreeValue)> = children_exec(dev);
    let ghost l1 = fields_dv(level1@);
    proof {
        lemma_fields_dv(level1@);
        assert(l1.subrange(0, l1.len() as int) =~= l1);
        assert(triples_dv(out@) + query_level1(l1, last@) =~= query_level1(l1, last@));
    }
    let n1: usize = level1.len();
    let mut i: usize = 0;
    #[verifier::loop_isolation(false)]
    while i < n1
        invariant
            i <= n1,
            n1 == l1.len(),
            query_level1(l1, last@)
                =~= triples_dv(out@) + query_level1(l1.subrange(i as int, n1 as int), last@),
        decreases n1 - i,
    {
        let ghost suf = l1.subrange(i as int, n1 as int);
        proof {
            assert(suf[0] == l1[i as int]);
            assert(suf.subrange(1, suf.len() as int) =~= l1.subrange(i + 1, n1 as int));
        }
        let level2: Vec<(String, TreeValue)> = children_exec(&level1[i].1);
        let ghost l2 = fields_dv(level2@);
        let ghost seg1 = l1[i as int].0;
        proof {
            lemma_fields_dv(level2@);
            assert(l2 =~= children(l1[i as int].1));
            assert(l2.subrange(0, l2.len() as int) =~= l2);
            assert(query_level1(suf, last@)
                =~= query_level2(seg1, l2, last@)
                    + query_level1(l1.subrange(i + 1, n1 as int), last@));
            assert(query_level1(l1, last@)
                =~= triples_dv(out@) + query_level2(seg1, l2, last@)
                    + query_level1(l1.subrange(i + 1, n1 as int), last@));
        }
        let n2: usize = level2.len();
        let mut j: usize = 0;
        #[verifier::loop_isolation(false)]
        while j < n2
            invariant
                j <= n2,
                n2 == l2.len(),
                query_level1(l1, last@)
                    =~= triples_dv(out@)
                        + query_level2(seg1, l2.subrange(j as int, n2 as int), last@)
                        + query_level1(l1.subrange(i + 1, n1 as int), last@),
            decreases n2 - j,
        {
            let ghost suf2 = l2.subrange(j as int, n2 as int);
            proof {
                assert(suf2[0] == l2[j as int]);
                assert(suf2.subrange(1, suf2.len() as int)
                    =~= l2.subrange(j + 1, n2 as int));
            }
            match obj_get_exec(&level2[j].1, last) {
                Some(leaf) => {
                    let ghost out0 = out@;
                    let k1: String = level1[i].0.clone();
                    let k2: String = level2[j].0.clone();
                    let lv: TreeValue = tree_clone(leaf);
                    out.push((k1, k2, lv));
                    proof {
                        assert(triples_dv(out@)
                            =~= triples_dv(out0)
                                + seq![(seg1, l2[j as int].0, tree_dv(lv))]);
                    }
                },
                None => {},
            }
            j = j + 1;
        }
        proof {
            assert(l2.subrange(n2 as int, n2 as int).len() == 0);
        }
        i = i + 1;
    }
    proof {
        assert(l1.subrange(n1 as int, n1 as int).len() == 0);
    }
    out
}

} // verus!
