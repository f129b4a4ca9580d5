//! The pending commands queued by the three built-ins during one
//! evaluation, and the parsing of built-in arguments.

use vstd::prelude::*;
use crate::error::CoreError;
use crate::value::{Scalar, ScalarS, value_dv, lemma_values_dv};

verus! {

broadcast use vstd::std_specs::vec::group_vec_axioms, vstd::seq::group_seq_axioms;

/// One command queued by a built-in, drained after evaluation.
#[derive(Clone, Debug)]
pub enum PendingCommand {
    ActivateScene(String),
    Custom(String, String),
    ForceTriggerRoutine(String),
}

pub ghost enum PendingCommandS {
    ActivateScene(Seq<char>),
    Custom(Seq<char>, Seq<char>),
    ForceTriggerRoutine(Seq<char>),
}

impl DeepView for PendingCommand {
    type V = PendingCommandS;

    open spec fn deep_view(&self) -> PendingCommandS {
        match self {
            PendingCommand::ActivateScene(s) => PendingCommandS::ActivateScene(s@),
            PendingCommand::Custom(i, p) => PendingCommandS::Custom(i@, p@),
            PendingCommand::ForceTriggerRoutine(r) => PendingCommandS::ForceTriggerRoutine(r@),
        }
    }
}

/// The strings of a tuple value, if it is a tuple of strings.
pub open spec fn tuple_strings(v: ScalarS) -> Option<Seq<Seq<char>>> {
    match v {
        ScalarS::Tuple(es) => if forall|i: int| 0 <= i < es.len() ==> es[i] is Str {
            Some(Seq::new(es.len(), |i: int| es[i]->Str_0))
        } else {
            None
        },
        _ => None,
    }
}

/// Converts a tuple of strings; any other value, or any non-string
/// member, is an evaluation error.
pub fn tuple_value_to_vec_string(v: &Scalar) -> (r: Result<Vec<String>, CoreError>)
    ensures
        match r {
            Ok(xs) => tuple_strings(value_dv(*v)) == Some(xs.deep_view()),
            Err(e) => tuple_strings(value_dv(*v)) is None && e == CoreError::Evaluation,
        },
{
    match v {
        Scalar::Tuple(es) => {
            proof {
                lemma_values_dv(es@);
            }
            let n: usize = es.len();
            let mut out: Vec<String> = Vec::new();
            let mut i: usize = 0;
            #[verifier::loop_isolation(false)]
            while i < n
                invariant
                    i <= n,
                    out@.len() == i,
                    forall|k: int| 0 <= k < i
                        ==> value_dv(es@[k]) == ScalarS::Str((#[trigger] out@[k])@),
                decreases n - i,
            {
                match &es[i] {
                    Scalar::Str(s) => {
                        let sc: String = s.clone();
                        proof {
                            assert(value_dv(es@[i as int]) == ScalarS::Str(s@));
                        }
                        let ghost out0 = out@;
                        out.push(sc);
                        proof {
                            assert forall|k: int| 0 <= k < i + 1
                                implies value_dv(es@[k])
                                    == ScalarS::Str((#[trigger] out@[k])@) by {
                                if k < i {
                                    assert(out@[k] == out0[k]);
                                    assert(value_dv(es@[k]) == ScalarS::Str((out0[k])@));
                                } else {
                                    assert(out@[k] == sc);
                                }
                            }
                        }
                    },
                    _ => {
                        proof {
                            assert(value_dv(*v)->Tuple_0 == crate::value::values_dv(es@));
                            assert(crate::value::values_dv(es@)[i as int]
                                == value_dv(es@[i as int]));
                            assert(!(crate::value::values_dv(es@)[i as int] is Str));
                        }
                        return Err(CoreError::Evaluation);
                    },
                }
                i = i + 1;
            }
            proof {
                let vs = values_of_tuple(value_dv(*v));
                assert(vs == crate::value::values_dv(es@));
                assert forall|k: int| 0 <= k < vs.len() implies #[trigger] vs[k] is Str by {
                    assert(value_dv(es@[k]) == ScalarS::Str((out@[k])@));
                    assert(vs[k] == value_dv(es@[k]));
                }
                assert forall|k: int| 0 <= k < vs.len()
                    implies #[trigger] out.deep_view()[k] == vs[k]->Str_0 by {
                    assert(value_dv(es@[k]) == ScalarS::Str((out@[k])@));
                    assert(vs[k] == value_dv(es@[k]));
                    assert(out.deep_view()[k] == (out@[k])@);
                }
                assert(out.deep_view() =~= Seq::new(vs.len(), |k: int| vs[k]->Str_0));
            }
            Ok(out)
        },
        _ => Err(CoreError::Evaluation),
    }
}

/// The element models of a tuple value.
pub open spec fn values_of_tuple(v: ScalarS) -> Seq<ScalarS> {
    v->Tuple_0
}

/// The concatenation of a run of strings, with no separator.
pub open spec fn concat_all(ss: Seq<Seq<char>>) -> Seq<char>
    decreases ss.len(),
{
    if ss.len() == 0 {
        Seq::empty()
    } else {
        ss[0] + concat_all(ss.subrange(1, ss.len() as int))
    }
}

/// Joins strings with no separator.
pub fn join_strings(ss: &Vec<String>) -> (r: String)
    ensures
        r@ == concat_all(ss.deep_view()),
{
    let ghost f = ss.deep_view();
    let n: usize = ss.len();
    let mut out: String = String::new();
    let mut i: usize = 0;
    proof {
        assert(f.subrange(0, n as int) =~= f);
        assert(out@ + concat_all(f) =~= concat_all(f));
    }
    #[verifier::loop_isolation(false)]
    while i < n
        invariant
            i <= n,
            n == f.len(),
            concat_all(f) =~= out@ + concat_all(f.subrange(i as int, n as int)),
        decreases n - i,
    {
        let ghost suf = f.subrange(i as int, n as int);
        proof {
            assert(suf[0] == f[i as int]);
            assert(suf.subrange(1, suf.len() as int) =~= f.subrange(i + 1, n as int));
        }
        out.append(ss[i].as_str());
        i = i + 1;
    }
    proof {
        assert(f.subrange(n as int, n as int).len() == 0);
        assert(out@ =~= concat_all(f));
    }
    out
}

/// What `activate_scene` queues for a given argument: the scene id,
/// when the argument is one string.
pub open spec fn activate_scene_command(v: ScalarS) -> Option<PendingCommandS> {
    match v {
        ScalarS::Str(s) => Some(PendingCommandS::ActivateScene(s)),
        _ => None,
    }
}

/// Parses the argument of the `activate_scene` built-in.
pub fn parse_activate_scene(v: &Scalar) -> (r: Result<PendingCommand, CoreError>)
    ensures
        match r {
            Ok(c) => activate_scene_command(value_dv(*v)) == Some(c.deep_view()),
            Err(e) => activate_scene_command(value_dv(*v)) is None && e == CoreError::Evaluation,
        },
{
    match v {
        Scalar::Str(s) => Ok(PendingCommand::ActivateScene(s.clone())),
        _ => Err(CoreError::Evaluation),
    }
}

/// What `custom_action` queues for a given argument: the integration
/// id and the payload parts concatenated with no separator, when the
/// argument is a tuple whose first member is a string and whose second
/// member is a tuple of strings.
pub open spec fn custom_action_command(v: ScalarS) -> Option<PendingCommandS> {
    match v {
        ScalarS::Tuple(es) => if es.len() >= 2 {
            match (es[0], tuple_strings(es[1])) {
                (ScalarS::Str(intg), Some(parts)) => Some(
                    PendingCommandS::Custom(intg, concat_all(parts)),
                ),
                _ => None,
            }
        } else {
            None
        },
        _ => None,
    }
}

/// Parses the argument of the `custom_action` built-in and joins the
/// payload parts into one payload string.
pub fn parse_custom_action(v: &Scalar) -> (r: Result<PendingCommand, CoreError>)
    ensures
        match r {
            Ok(c) => custom_action_command(value_dv(*v)) == Some(c.deep_view()),
            Err(e) => custom_action_command(value_dv(*v)) is None && e == CoreError::Evaluation,
        },
{
    match v {
        Scalar::Tuple(es) => {
            proof {
                lemma_values_dv(es@);
            }
            if es.len() < 2 {
                return Err(CoreError::Evaluation);
            }
            let intg: String = match &es[0] {
                Scalar::Str(s) => s.clone(),
                _ => {
                    return Err(CoreError::Evaluation);
                },
            };
            let parts: Vec<String> = match tuple_value_to_vec_string(&es[1]) {
                Ok(p) => p,
                Err(e) => {
                    return Err(e);
                },
            };
            let payload: String = join_strings(&parts);
            Ok(PendingCommand::Custom(intg, payload))
        },
        _ => Err(CoreError::Evaluation),
    }
}

/// What `trigger_routine` queues for a given argument: the routine id,
/// when the argument is one string.
pub open spec fn trigger_routine_command(v: ScalarS) -> Option<PendingCommandS> {
    match v {
        ScalarS::Str(s) => Some(PendingCommandS::ForceTriggerRoutine(s)),
        _ => None,
    }
}

/// Parses the argument of the `trigger_routine` built-in.
pub fn parse_trigger_routine(v: &Scalar) -> (r: Result<PendingCommand, CoreError>)
    ensures
        match r {
            Ok(c) => trigger_routine_command(value_dv(*v)) == Some(c.deep_view()),
            Err(e) => trigger_routine_command(value_dv(*v)) is None
                && e == CoreError::Evaluation,
        },
{
    match v {
        Scalar::Str(s) => Ok(PendingCommand::ForceTriggerRoutine(s.clone())),
        _ => Err(CoreError::Evaluation),
    }
}

} // verus!
