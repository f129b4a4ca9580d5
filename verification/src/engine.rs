//! The evaluator: the expression runs inside the `evalexpr` crate,
//! against a type-erased copy of the built namespace, with the three
//! side-effecting built-ins and the diagnostic built-in registered.
//! Everything around that call — building, draining, diffing,
//! translating — is this crate's own verified logic.

use vstd::prelude::*;
use crate::action::{Action, ActionS, SceneDescriptor, SceneDescriptorS, CustomActionDescriptor,
    CustomActionDescriptorS, ForceTriggerRoutineDescriptor, ForceTriggerRoutineDescriptorS};
use crate::builder::{state_to_eval_context, build_ctx_spec};
use crate::commands::{PendingCommand, PendingCommandS, tuple_strings, tuple_value_to_vec_string,
    parse_activate_scene, parse_custom_action, parse_trigger_routine};
use crate::context::{EvaluationContext, ctx_lookup};
use crate::device::{DevicesState, FlattenedScenesConfig, FlattenedGroupsConfig};
use crate::diff::{diff_and_translate, diff_actions_spec};
use crate::error::CoreError;
use crate::value::{Scalar, ScalarS, value_dv};
use evalexpr::{Context, IterateVariablesContext, ContextWithMutableVariables, ContextWithMutableFunctions};
use std::io::Write;

verus! {

broadcast use vstd::std_specs::vec::group_vec_axioms, vstd::seq::group_seq_axioms;

// ---------------------------------------------------------------------
// The trusted boundary around evalexpr.

/// The shape of an `evalexpr` value, as far as this crate reads it.
/// A float's payload is never read, so the model does not carry it.
pub ghost enum EvalVal {
    Bool(bool),
    Int(int),
    Float,
    Str(Seq<char>),
    Empty,
    Tuple(Seq<EvalVal>),
}

/// What an `evalexpr` value holds.
pub uninterp spec fn ev_val(v: evalexpr::Value) -> EvalVal;

/// What an `evalexpr` context's variables hold.
pub uninterp spec fn ctx_model(c: evalexpr::HashMapContext) -> Map<Seq<char>, EvalVal>;

/// Whether `evalexpr`'s own builtin functions are disabled on a
/// context, leaving only variables, operators and the functions this
/// crate registers.
pub uninterp spec fn builtins_disabled(c: evalexpr::HashMapContext) -> bool;

/// The model of a context with no variables.
pub open spec fn empty_model() -> Map<Seq<char>, EvalVal> {
    Map::empty()
}

/// The `evalexpr` shape of a namespace scalar.
pub open spec fn to_ev(v: ScalarS) -> EvalVal
    decreases v,
{
    match v {
        ScalarS::Bool(b) => EvalVal::Bool(b),
        ScalarS::Int(i) => EvalVal::Int(i),
        ScalarS::Str(s) => EvalVal::Str(s),
        ScalarS::Null => EvalVal::Empty,
        ScalarS::Tuple(vs) => EvalVal::Tuple(to_ev_seq(vs)),
    }
}

pub open spec fn to_ev_seq(vs: Seq<ScalarS>) -> Seq<EvalVal>
    decreases vs,
    via to_ev_seq_dec
{
    if vs.len() == 0 {
        Seq::empty()
    } else {
        seq![to_ev(vs[0])] + to_ev_seq(vs.subrange(1, vs.len() as int))
    }
}

#[via_fn]
proof fn to_ev_seq_dec(vs: Seq<ScalarS>) {
    if vs.len() > 0 {
        assert(decreases_to!(vs => vs[0]));
        assert(decreases_to!(vs => vs.subrange(1, vs.len() as int)));
    }
}

/// The namespace scalar an `evalexpr` value converts back to, if it
/// holds no float anywhere: a float cannot be represented as the
/// namespace's numeric kind.
pub open spec fn from_ev(e: EvalVal) -> Option<ScalarS>
    decreases e,
{
    match e {
        EvalVal::Bool(b) => Some(ScalarS::Bool(b)),
        EvalVal::Int(i) => Some(ScalarS::Int(i)),
        EvalVal::Float => None,
        EvalVal::Str(s) => Some(ScalarS::Str(s)),
        EvalVal::Empty => Some(ScalarS::Null),
        EvalVal::Tuple(es) => match from_ev_seq(es) {
            Some(vs) => Some(ScalarS::Tuple(vs)),
            None => None,
        },
    }
}

pub open spec fn from_ev_seq(es: Seq<EvalVal>) -> Option<Seq<ScalarS>>
    decreases es,
    via from_ev_seq_dec
{
    if es.len() == 0 {
        Some(Seq::empty())
    } else {
        match (from_ev(es[0]), from_ev_seq(es.subrange(1, es.len() as int))) {
            (Some(v), Some(vs)) => Some(seq![v] + vs),
            _ => None,
        }
    }
}

#[via_fn]
proof fn from_ev_seq_dec(es: Seq<EvalVal>) {
    if es.len() > 0 {
        assert(decreases_to!(es => es[0]));
        assert(decreases_to!(es => es.subrange(1, es.len() as int)));
    }
}

/// What a namespace's entries amount to as the evaluator's variables
/// map, set in order: a later entry with the same name wins.
pub open spec fn ns_model(s: Seq<(Seq<char>, ScalarS)>) -> Map<Seq<char>, EvalVal>
    decreases s.len(),
{
    if s.len() == 0 {
        Map::empty()
    } else {
        ns_model(s.drop_last()).insert(s.last().0, to_ev(s.last().1))
    }
}

/// The model binds exactly the entries' names.
pub proof fn lemma_ns_model_dom(s: Seq<(Seq<char>, ScalarS)>)
    ensures
        forall|k: Seq<char>| #[trigger] ns_model(s).dom().contains(k)
            <==> exists|i: int| 0 <= i < s.len() && s[i].0 == k,
    decreases s.len(),
{
    if s.len() > 0 {
        lemma_ns_model_dom(s.drop_last());
        assert forall|k: Seq<char>| #[trigger] ns_model(s).dom().contains(k)
            implies exists|i: int| 0 <= i < s.len() && s[i].0 == k by {
            if k == s.last().0 {
                assert(s[s.len() - 1].0 == k);
            } else {
                assert(ns_model(s.drop_last()).dom().contains(k));
                let i = choose|i: int| 0 <= i < s.drop_last().len()
                    && s.drop_last()[i].0 == k;
                assert(s[i].0 == k);
            }
        }
        assert forall|k: Seq<char>| (exists|i: int| 0 <= i < s.len() && s[i].0 == k)
            implies #[trigger] ns_model(s).dom().contains(k) by {
            let i = choose|i: int| 0 <= i < s.len() && s[i].0 == k;
            if i == s.len() - 1 {
            } else {
                assert(s.drop_last()[i].0 == k);
                assert(ns_model(s.drop_last()).dom().contains(k));
            }
        }
    }
}

/// The commands the built-ins have queued, shared with the closures
/// registered on the evaluation context through a reference-counted,
/// lock-protected list.  Nothing prevents an expression from calling
/// the built-ins in a nested fashion, so the list is lock-protected.
#[verifier::external_body]
pub struct CallLog {
    inner: std::sync::Arc<std::sync::RwLock<Vec<PendingCommand>>>,
}

/// What the call log holds, in enqueue order.
pub uninterp spec fn log_model(l: CallLog) -> Seq<PendingCommandS>;

/// Relies on `Arc::new` and `RwLock::new`: a fresh log holds nothing.
#[verifier::external_body]
fn log_new() -> (r: CallLog)
    ensures
        log_model(r) == Seq::<PendingCommandS>::empty(),
{
    CallLog { inner: std::sync::Arc::new(std::sync::RwLock::new(Vec::new())) }
}

/// Relies on `RwLock::read` and `Vec::clone`: returns exactly the
/// queued commands, in enqueue order.
#[verifier::external_body]
fn log_take(l: &CallLog) -> (r: Vec<PendingCommand>)
    ensures
        r.deep_view() == log_model(*l),
{
    l.inner.read().unwrap_or_else(|e| e.into_inner()).clone()
}

/// Relies on `HashMapContext::new` and
/// `set_builtin_functions_disabled` (always `Ok` on this context
/// type): a fresh context has no variables, and `evalexpr`'s own
/// builtin functions are switched off.  The expression surface is
/// then variables, operators and the functions this crate registers,
/// as the evaluator promises — and no enabled builtin can abort the
/// call on a legal argument.
#[verifier::external_body]
fn ctx_new() -> (r: evalexpr::HashMapContext)
    ensures
        ctx_model(r) == empty_model(),
        builtins_disabled(r),
{
    let mut c = evalexpr::HashMapContext::new();
    let _ = c.set_builtin_functions_disabled(true);
    c
}

/// Relies on `evalexpr::Value`'s constructors: builds the value of
/// the same shape.
#[verifier::external_body]
fn to_eval_value(v: &Scalar) -> (r: evalexpr::Value)
    ensures
        ev_val(r) == to_ev(value_dv(*v)),
{
    match v {
        Scalar::Bool(b) => evalexpr::Value::Boolean(*b),
        Scalar::Int(i) => evalexpr::Value::Int(*i),
        Scalar::Str(s) => evalexpr::Value::String(s.clone()),
        Scalar::Null => evalexpr::Value::Empty,
        Scalar::Tuple(vs) => evalexpr::Value::Tuple(vs.iter().map(to_eval_value).collect()),
    }
}

/// Relies on `evalexpr::Value`'s variants: reads the value of the
/// same shape back; a float anywhere in it cannot be represented.
#[verifier::external_body]
fn from_eval_value(v: &evalexpr::Value) -> (r: Result<Scalar, CoreError>)
    ensures
        match r {
            Ok(w) => from_ev(ev_val(*v)) == Some(value_dv(w)),
            Err(e) => from_ev(ev_val(*v)) is None && e == CoreError::Conversion,
        },
{
    match v {
        evalexpr::Value::Boolean(b) => Ok(Scalar::Bool(*b)),
        evalexpr::Value::Int(i) => Ok(Scalar::Int(*i)),
        evalexpr::Value::Float(_) => Err(CoreError::Conversion),
        evalexpr::Value::String(s) => Ok(Scalar::Str(s.clone())),
        evalexpr::Value::Empty => Ok(Scalar::Null),
        evalexpr::Value::Tuple(es) => Ok(Scalar::Tuple(
            es.iter().map(from_eval_value).collect::<Result<Vec<Scalar>, CoreError>>()?,
        )),
    }
}

/// Relies on `evalexpr::Value::Boolean`: tells the boolean `false`
/// apart from every other result.
#[verifier::external_body]
fn value_is_false(v: &evalexpr::Value) -> (r: bool)
    ensures
        r == (ev_val(*v) == EvalVal::Bool(false)),
{
    matches!(v, evalexpr::Value::Boolean(false))
}

/// Relies on `HashMapContext::set_value`: stores the value under the
/// name; a fresh name always succeeds, an existing one only when the
/// new value has the type the name already holds.  Variables are kept
/// apart from the builtin-functions switch.
#[verifier::external_body]
fn ctx_set_value(c: &mut evalexpr::HashMapContext, key: &String, v: evalexpr::Value)
    -> (r: Result<(), CoreError>)
    ensures
        match r {
            Ok(()) => ctx_model(*final(c)) == ctx_model(*old(c)).insert(key@, ev_val(v)),
            Err(e) => e == CoreError::Context && ctx_model(*final(c)) == ctx_model(*old(c)),
        },
        !ctx_model(*old(c)).dom().contains(key@) ==> r is Ok,
        builtins_disabled(*final(c)) == builtins_disabled(*old(c)),
{
    c.set_value(key.clone(), v).map_err(|_| CoreError::Context)
}

/// Relies on `Node::eval_with_context_mut`: runs the expression,
/// mutating the context through its assignments and the call log
/// through the registered built-ins.  Which value comes back, and
/// what the two hold afterwards, depend on the expression alone and
/// are not modelled: the callers handle every outcome.  The builtins
/// must be disabled, because one of `evalexpr`'s own builtins can
/// abort on a legal argument; with them off, operators check their
/// arithmetic and the registered closures always return.
#[verifier::external_body]
fn eval_node(expr: &evalexpr::Node, c: &mut evalexpr::HashMapContext, log: &mut CallLog)
    -> (r: Result<evalexpr::Value, CoreError>)
    requires
        builtins_disabled(*old(c)),
    ensures
        (match r {
            Err(e) => e == CoreError::Evaluation,
            Ok(_) => true,
        }),
{
    expr.eval_with_context_mut(c).map_err(|_| CoreError::Evaluation)
}

/// Relies on `HashMapContext::iter_variables`: hands out every
/// variable with its value, each name once, in no promised order.
#[verifier::external_body]
fn ctx_variables(c: &evalexpr::HashMapContext) -> (r: Vec<(String, evalexpr::Value)>)
    ensures
        forall|i: int, j: int| 0 <= i < j < r@.len() ==> r@[i].0@ != r@[j].0@,
        forall|i: int| 0 <= i < r@.len()
            ==> ctx_model(*c).dom().contains((#[trigger] r@[i]).0@)
                && ctx_model(*c)[r@[i].0@] == ev_val(r@[i].1),
        forall|k: Seq<char>| ctx_model(*c).dom().contains(k)
            ==> exists|i: int| 0 <= i < r@.len() && (#[trigger] r@[i]).0@ == k,
{
    c.iter_variables().collect()
}

/// Relies on `HashMapContext::set_function` and `Function::new`:
/// registers the `activate_scene` built-in, whose closure parses its
/// argument with this crate's verified parser and queues the command.
/// Functions are no variables, so the context's variables are
/// unchanged.
#[verifier::external_body]
fn register_activate_scene(c: &mut evalexpr::HashMapContext, log: &CallLog)
    -> (r: Result<(), CoreError>)
    ensures
        r is Ok,
        ctx_model(*final(c)) == ctx_model(*old(c)),
        builtins_disabled(*final(c)) == builtins_disabled(*old(c)),
{
    let l = log.inner.clone();
    c.set_function("activate_scene".into(), evalexpr::Function::new(move |arg| {
        let v = from_eval_value(arg)
            .map_err(|_| evalexpr::EvalexprError::CustomMessage("bad argument".into()))?;
        let cmd = parse_activate_scene(&v)
            .map_err(|_| evalexpr::EvalexprError::CustomMessage("expected a scene id".into()))?;
        l.write().unwrap_or_else(|e| e.into_inner()).push(cmd);
        Ok(evalexpr::Value::Empty)
    })).map_err(|_| CoreError::Context)
}

/// Relies on `HashMapContext::set_function` and `Function::new`:
/// registers the `custom_action` built-in; its closure parses the
/// integration id and payload parts with this crate's verified parser
/// and queues the command.
#[verifier::external_body]
fn register_custom_action(c: &mut evalexpr::HashMapContext, log: &CallLog)
    -> (r: Result<(), CoreError>)
    ensures
        r is Ok,
        ctx_model(*final(c)) == ctx_model(*old(c)),
        builtins_disabled(*final(c)) == builtins_disabled(*old(c)),
{
    let l = log.inner.clone();
    c.set_function("custom_action".into(), evalexpr::Function::new(move |arg| {
        let v = from_eval_value(arg)
            .map_err(|_| evalexpr::EvalexprError::CustomMessage("bad argument".into()))?;
        let cmd = parse_custom_action(&v)
            .map_err(|_| evalexpr::EvalexprError::CustomMessage("expected an id and parts".into()))?;
        l.write().unwrap_or_else(|e| e.into_inner()).push(cmd);
        Ok(evalexpr::Value::Empty)
    })).map_err(|_| CoreError::Context)
}

/// Relies on `HashMapContext::set_function` and `Function::new`:
/// registers the `trigger_routine` built-in; its closure parses the
/// routine id with this crate's verified parser and queues the
/// command.
#[verifier::external_body]
fn register_trigger_routine(c: &mut evalexpr::HashMapContext, log: &CallLog)
    -> (r: Result<(), CoreError>)
    ensures
        r is Ok,
        ctx_model(*final(c)) == ctx_model(*old(c)),
        builtins_disabled(*final(c)) == builtins_disabled(*old(c)),
{
    let l = log.inner.clone();
    c.set_function("trigger_routine".into(), evalexpr::Function::new(move |arg| {
        let v = from_eval_value(arg)
            .map_err(|_| evalexpr::EvalexprError::CustomMessage("bad argument".into()))?;
        let cmd = parse_trigger_routine(&v)
            .map_err(|_| evalexpr::EvalexprError::CustomMessage("expected a routine id".into()))?;
        l.write().unwrap_or_else(|e| e.into_inner()).push(cmd);
        Ok(evalexpr::Value::Empty)
    })).map_err(|_| CoreError::Context)
}

/// Relies on `HashMapContext::set_function`, `Function::new` and
/// `writeln`: registers the `dbg` diagnostic built-in.  Called with no
/// argument it prints the given namespace lines; called with one it
/// prints that argument.  It never fails and evaluates to null.
#[verifier::external_body]
fn register_dbg(c: &mut evalexpr::HashMapContext, lines: Vec<String>)
    -> (r: Result<(), CoreError>)
    ensures
        r is Ok,
        ctx_model(*final(c)) == ctx_model(*old(c)),
        builtins_disabled(*final(c)) == builtins_disabled(*old(c)),
{
    c.set_function("dbg".into(), evalexpr::Function::new(move |arg| {
        if matches!(arg, evalexpr::Value::Empty) {
            for line in &lines {
                let _ = writeln!(std::io::stdout(), "{}", line);
            }
        } else {
            let _ = writeln!(std::io::stdout(), "{:?}", arg);
        }
        Ok(evalexpr::Value::Empty)
    })).map_err(|_| CoreError::Context)
}

/// A diagnostic line for the named entry: the name, then ` = `, then
/// whatever renders the value.
pub open spec fn line_heads(line: Seq<char>, name: Seq<char>) -> bool {
    line.len() >= name.len() + 3
        && line.subrange(0, name.len() as int) == name
        && line.subrange(name.len() as int, (name.len() + 3) as int) == " = "@
}

/// Some line of `rlines` is the line for the named entry.
pub open spec fn some_line_for(rlines: Seq<Seq<char>>, name: Seq<char>) -> bool {
    exists|i: int| 0 <= i < rlines.len() && line_heads(rlines[i], name)
}

/// The line is for some entry of the namespace.
pub open spec fn line_is_for_some(rline: Seq<char>, ctx: Seq<(Seq<char>, ScalarS)>) -> bool {
    exists|j: int| 0 <= j < ctx.len() && line_heads(rline, ctx[j].0)
}

/// Relies on `format`: renders one `name = value` line — the name,
/// then ` = `, then the value's rendering.
#[verifier::external_body]
fn render_entry(name: &String, v: &Scalar) -> (r: String)
    ensures
        line_heads(r@, name@),
{
    format!("{} = {:?}", name, v)
}

/// Relies on `slice::sort`: the result holds the same strings,
/// ordered; `str`'s byte order agrees with code-point order under
/// UTF-8.
#[verifier::external_body]
fn sort_lines(lines: Vec<String>) -> (r: Vec<String>)
    ensures
        r.deep_view().to_multiset() == lines.deep_view().to_multiset(),
        forall|i: int, j: int| 0 <= i < j < r.deep_view().len()
            ==> crate::strings::seq_char_le(r.deep_view()[i], r.deep_view()[j]),
{
    let mut lines = lines;
    lines.sort();
    lines
}

/// Relies on `writeln`: prints each line.
#[verifier::external_body]
fn print_lines(lines: &Vec<String>) {
    for line in lines {
        let _ = writeln!(std::io::stdout(), "{}", line);
    }
}

// ---------------------------------------------------------------------
// Verified logic around the boundary.

/// One `name = value` line per namespace entry, sorted by line —
/// names are unique within a namespace, so sorting the lines orders
/// them by name.
fn context_debug_lines(ctx: &EvaluationContext) -> (r: Vec<String>)
    ensures
        r@.len() == ctx@.len(),
        forall|i: int, j: int| 0 <= i < j < r@.len()
            ==> crate::strings::seq_char_le(r.deep_view()[i], r.deep_view()[j]),
        forall|i: int| 0 <= i < r@.len()
            ==> line_is_for_some(#[trigger] r.deep_view()[i], ctx@),
        forall|j: int| 0 <= j < ctx@.len()
            ==> some_line_for(r.deep_view(), (#[trigger] ctx@[j]).0),
{
    let n: usize = ctx.len();
    let mut lines: Vec<String> = Vec::new();
    let mut i: usize = 0;
    #[verifier::loop_isolation(false)]
    while i < n
        invariant
            i <= n,
            lines@.len() == i,
            forall|k: int| 0 <= k < i
                ==> line_heads(#[trigger] lines.deep_view()[k], ctx@[k].0),
        decreases n - i,
    {
        let line: String = render_entry(ctx.key_at(i), ctx.value_at(i));
        let ghost l0 = lines.deep_view();
        lines.push(line);
        proof {
            assert forall|k: int| 0 <= k < i + 1
                implies line_heads(#[trigger] lines.deep_view()[k], ctx@[k].0) by {
                if k < i {
                    assert(lines.deep_view()[k] == l0[k]);
                    assert(line_heads(l0[k], ctx@[k].0));
                }
            }
        }
        i = i + 1;
    }
    let sorted: Vec<String> = sort_lines(lines);
    proof {
        sorted.deep_view().to_multiset_ensures();
        lines.deep_view().to_multiset_ensures();
        assert(lines@.len() == lines.deep_view().len());
        assert forall|i2: int| 0 <= i2 < sorted.deep_view().len()
            implies line_is_for_some(#[trigger] sorted.deep_view()[i2], ctx@) by {
            assert(sorted.deep_view().contains(sorted.deep_view()[i2]));
            assert(sorted.deep_view().to_multiset().count(sorted.deep_view()[i2]) > 0);
            assert(lines.deep_view().to_multiset().count(sorted.deep_view()[i2]) > 0);
            assert(lines.deep_view().contains(sorted.deep_view()[i2]));
            let k = choose|k: int| 0 <= k < lines.deep_view().len()
                && lines.deep_view()[k] == sorted.deep_view()[i2];
            assert(line_heads(lines.deep_view()[k], ctx@[k].0));
            assert(line_heads(sorted.deep_view()[i2], ctx@[k].0));
        }
        assert forall|j2: int| 0 <= j2 < ctx@.len()
            implies some_line_for(sorted.deep_view(), (#[trigger] ctx@[j2]).0) by {
            assert(line_heads(lines.deep_view()[j2], ctx@[j2].0));
            assert(lines.deep_view().contains(lines.deep_view()[j2]));
            assert(lines.deep_view().to_multiset().count(lines.deep_view()[j2]) > 0);
            assert(sorted.deep_view().to_multiset().count(lines.deep_view()[j2]) > 0);
            assert(sorted.deep_view().contains(lines.deep_view()[j2]));
            let k = choose|k: int| 0 <= k < sorted.deep_view().len()
                && sorted.deep_view()[k] == lines.deep_view()[j2];
            assert(line_heads(sorted.deep_view()[k], ctx@[j2].0));
        }
        assert(sorted.deep_view().len() == sorted@.len());
    }
    sorted
}

/// Prints one sorted `name = value` line for every variable of the
/// namespace, as a debugging aid.  It never fails and cannot change
/// the namespace.
pub fn debug_print_context(ctx: &EvaluationContext) {
    let lines: Vec<String> = context_debug_lines(ctx);
    print_lines(&lines);
}

/// The actions the explicitly queued commands translate to, in call
/// order.  A queued scene activation reads the optional `group_keys`
/// namespace variable: absent means no group scoping; present, it
/// must be a tuple of strings, else the whole evaluation fails.
pub open spec fn explicit_actions(
    calls: Seq<PendingCommandS>,
    fin: Seq<(Seq<char>, ScalarS)>,
) -> Result<Seq<ActionS>, CoreError>
    decreases calls.len(),
{
    if calls.len() == 0 {
        Ok(Seq::empty())
    } else {
        let head = match calls[0] {
            PendingCommandS::ActivateScene(sid) => match ctx_lookup(fin, "group_keys"@) {
                None => Ok(seq![
                    ActionS::ActivateScene(SceneDescriptorS {
                        scene_id: sid,
                        device_keys: None,
                        group_keys: None,
                    }),
                ]),
                Some(v) => match tuple_strings(v) {
                    Some(gs) => Ok(seq![
                        ActionS::ActivateScene(SceneDescriptorS {
                            scene_id: sid,
                            device_keys: None,
                            group_keys: Some(gs),
                        }),
                    ]),
                    None => Err(CoreError::Evaluation),
                },
            },
            PendingCommandS::Custom(intg, payload) => Ok(seq![
                ActionS::Custom(CustomActionDescriptorS {
                    integration_id: intg,
                    payload: payload,
                }),
            ]),
            PendingCommandS::ForceTriggerRoutine(rid) => Ok(seq![
                ActionS::ForceTriggerRoutine(ForceTriggerRoutineDescriptorS {
                    routine_id: rid,
                }),
            ]),
        };
        match head {
            Err(e) => Err(e),
            Ok(h) => match explicit_actions(calls.subrange(1, calls.len() as int), fin) {
                Err(e) => Err(e),
                Ok(rest) => Ok(h + rest),
            },
        }
    }
}

/// Drains the queued commands into actions, in call order.
pub fn drain_commands(calls: &Vec<PendingCommand>, final_ns: &EvaluationContext)
    -> (r: Result<Vec<Action>, CoreError>)
    ensures
        match r {
            Ok(a) => explicit_actions(calls.deep_view(), final_ns@)
                == Ok::<Seq<ActionS>, CoreError>(a.deep_view()),
            Err(e) => explicit_actions(calls.deep_view(), final_ns@) == Err::<Seq<ActionS>,
                CoreError>(e),
        },
{
    let ghost cs = calls.deep_view();
    let n: usize = calls.len();
    let mut out: Vec<Action> = Vec::new();
    let mut i: usize = 0;
    proof {
        assert(cs.subrange(0, n as int) =~= cs);
    }
    #[verifier::loop_isolation(false)]
    while i < n
        invariant
            i <= n,
            n == cs.len(),
            explicit_actions(cs, final_ns@) == match explicit_actions(
                cs.subrange(i as int, n as int), final_ns@) {
                Ok(rest) => Ok::<Seq<ActionS>, CoreError>(out.deep_view() + rest),
                Err(e) => Err::<Seq<ActionS>, CoreError>(e),
            },
        decreases n - i,
    {
        let ghost suf = cs.subrange(i as int, n as int);
        proof {
            assert(suf[0] == cs[i as int]);
            assert(suf.subrange(1, suf.len() as int) =~= cs.subrange(i + 1, n as int));
        }
        let ghost out0 = out.deep_view();
        match &calls[i] {
            PendingCommand::ActivateScene(sid) => {
                match final_ns.get("group_keys") {
                    None => {
                        let act = Action::ActivateScene(SceneDescriptor {
                            scene_id: sid.clone(),
                            device_keys: None,
                            group_keys: None,
                        });
                        let ghost av = act.deep_view();
                        out.push(act);
                        proof {
                            assert(av == ActionS::ActivateScene(SceneDescriptorS {
                                scene_id: sid@,
                                device_keys: None,
                                group_keys: None,
                            }));
                            assert(out.deep_view() =~= out0 + seq![av]);
                            assert(cs[i as int] == PendingCommandS::ActivateScene(sid@));
                            let rst = explicit_actions(cs.subrange(i + 1, n as int), final_ns@);
                            assert(explicit_actions(suf, final_ns@) == (match rst {
                                Ok(rest) => Ok::<Seq<ActionS>, CoreError>(seq![av] + rest),
                                Err(e2) => Err::<Seq<ActionS>, CoreError>(e2),
                            }));
                            if rst is Ok {
                                assert(out0 + (seq![av] + rst->Ok_0)
                                    =~= out.deep_view() + rst->Ok_0);
                            }
                        }
                    },
                    Some(v) => {
                        match tuple_value_to_vec_string(v) {
                            Ok(gs) => {
                                let ghost gsd = gs.deep_view();
                                let act = Action::ActivateScene(SceneDescriptor {
                                    scene_id: sid.clone(),
                                    device_keys: None,
                                    group_keys: Some(gs),
                                });
                                let ghost av = act.deep_view();
                                out.push(act);
                                proof {
                                    assert(av == ActionS::ActivateScene(SceneDescriptorS {
                                        scene_id: sid@,
                                        device_keys: None,
                                        group_keys: Some(gsd),
                                    }));
                            assert(out.deep_view() =~= out0 + seq![av]);
                            assert(cs[i as int] == PendingCommandS::ActivateScene(sid@));
                            let rst = explicit_actions(cs.subrange(i + 1, n as int), final_ns@);
                            assert(explicit_actions(suf, final_ns@) == (match rst {
                                Ok(rest) => Ok::<Seq<ActionS>, CoreError>(seq![av] + rest),
                                Err(e2) => Err::<Seq<ActionS>, CoreError>(e2),
                            }));
                            if rst is Ok {
                                assert(out0 + (seq![av] + rst->Ok_0)
                                    =~= out.deep_view() + rst->Ok_0);
                            }
                                }
                            },
                            Err(e) => {
                                return Err(e);
                            },
                        }
                    },
                }
            },
            PendingCommand::Custom(intg, payload) => {
                let act = Action::Custom(CustomActionDescriptor {
                    integration_id: intg.clone(),
                    payload: payload.clone(),
                });
                let ghost av = act.deep_view();
                out.push(act);
                proof {
                    assert(av == ActionS::Custom(CustomActionDescriptorS {
                        integration_id: intg@,
                        payload: payload@,
                    }));
                            assert(out.deep_view() =~= out0 + seq![av]);
                            assert(cs[i as int] == PendingCommandS::Custom(intg@, payload@));
                            let rst = explicit_actions(cs.subrange(i + 1, n as int), final_ns@);
                            assert(explicit_actions(suf, final_ns@) == (match rst {
                                Ok(rest) => Ok::<Seq<ActionS>, CoreError>(seq![av] + rest),
                                Err(e2) => Err::<Seq<ActionS>, CoreError>(e2),
                            }));
                            if rst is Ok {
                                assert(out0 + (seq![av] + rst->Ok_0)
                                    =~= out.deep_view() + rst->Ok_0);
                            }
                }
            },
            PendingCommand::ForceTriggerRoutine(rid) => {
                let act = Action::ForceTriggerRoutine(ForceTriggerRoutineDescriptor {
                    routine_id: rid.clone(),
                });
                let ghost av = act.deep_view();
                out.push(act);
                proof {
                    assert(av == ActionS::ForceTriggerRoutine(ForceTriggerRoutineDescriptorS {
                        routine_id: rid@,
                    }));
                            assert(out.deep_view() =~= out0 + seq![av]);
                            assert(cs[i as int] == PendingCommandS::ForceTriggerRoutine(rid@));
                            let rst = explicit_actions(cs.subrange(i + 1, n as int), final_ns@);
                            assert(explicit_actions(suf, final_ns@) == (match rst {
                                Ok(rest) => Ok::<Seq<ActionS>, CoreError>(seq![av] + rest),
                                Err(e2) => Err::<Seq<ActionS>, CoreError>(e2),
                            }));
                            if rst is Ok {
                                assert(out0 + (seq![av] + rst->Ok_0)
                                    =~= out.deep_view() + rst->Ok_0);
                            }
                }
            },
        }
        i = i + 1;
    }
    proof {
        assert(cs.subrange(n as int, n as int).len() == 0);
    }
    Ok(out)
}

/// Everything one evaluation dispatches, given what the expression
/// left behind: nothing at all when the result was the boolean
/// `false`; otherwise the explicit commands in call order, then the
/// diff-derived scene activations, then the diff-derived state
/// writes.
pub open spec fn outcome_actions(
    result_false: bool,
    calls: Seq<PendingCommandS>,
    orig: Seq<(Seq<char>, ScalarS)>,
    fin: Seq<(Seq<char>, ScalarS)>,
    devices: Seq<crate::device::DeviceS>,
) -> Result<Seq<ActionS>, CoreError> {
    if result_false {
        Ok(Seq::empty())
    } else {
        match explicit_actions(calls, fin) {
            Err(e) => Err(e),
            Ok(ex) => match diff_actions_spec(orig, fin, devices) {
                None => Err(CoreError::DiffEncoding),
                Some(da) => Ok(ex + da),
            },
        }
    }
}

/// Turns one evaluation's outcome into the ordered actions to
/// dispatch.
pub fn translate_outcome(
    result_false: bool,
    calls: &Vec<PendingCommand>,
    original_ns: &EvaluationContext,
    final_ns: &EvaluationContext,
    devices: &DevicesState,
) -> (r: Result<Vec<Action>, CoreError>)
    ensures
        match r {
            Ok(a) => outcome_actions(result_false, calls.deep_view(), original_ns@,
                final_ns@, devices.deep_view()) == Ok::<Seq<ActionS>, CoreError>(
                a.deep_view()),
            Err(e) => outcome_actions(result_false, calls.deep_view(), original_ns@,
                final_ns@, devices.deep_view()) == Err::<Seq<ActionS>, CoreError>(e),
        },
{
    if result_false {
        let out: Vec<Action> = Vec::new();
        proof {
            assert(out.deep_view() =~= Seq::<ActionS>::empty());
        }
        return Ok(out);
    }
    let mut out: Vec<Action> = match drain_commands(calls, final_ns) {
        Ok(a) => a,
        Err(e) => {
            return Err(e);
        },
    };
    let mut derived: Vec<Action> = match diff_and_translate(original_ns, final_ns, devices) {
        Ok(a) => a,
        Err(e) => {
            return Err(e);
        },
    };
    let ghost out0 = out@;
    let ghost dv0 = derived@;
    out.append(&mut derived);
    proof {
        assert(out@ =~= out0 + dv0);
        assert(out.deep_view()
            =~= Seq::new(out0.len(), |k: int| out0[k].deep_view())
                + Seq::new(dv0.len(), |k: int| dv0[k].deep_view()));
    }
    Ok(out)
}

/// The explicit drain fails only as an evaluation error.
pub proof fn lemma_explicit_actions_error_kind(
    calls: Seq<PendingCommandS>,
    fin: Seq<(Seq<char>, ScalarS)>,
)
    ensures
        (match explicit_actions(calls, fin) {
            Err(e) => e == CoreError::Evaluation,
            Ok(_) => true,
        }),
    decreases calls.len(),
{
    if calls.len() > 0 {
        lemma_explicit_actions_error_kind(calls.subrange(1, calls.len() as int), fin);
    }
}

/// The outcome translation fails only as an evaluation or a
/// diff-encoding error — never as a context error.
pub proof fn lemma_outcome_actions_error_kind(
    result_false: bool,
    calls: Seq<PendingCommandS>,
    orig: Seq<(Seq<char>, ScalarS)>,
    fin: Seq<(Seq<char>, ScalarS)>,
    devices: Seq<crate::device::DeviceS>,
)
    ensures
        (match outcome_actions(result_false, calls, orig, fin, devices) {
            Err(e) => e == CoreError::Evaluation || e == CoreError::DiffEncoding,
            Ok(_) => true,
        }),
{
    lemma_explicit_actions_error_kind(calls, fin);
}

/// Evaluates a rule expression against live state and returns the
/// ordered actions it calls for.  The namespace is built from the
/// snapshots and loaded, entry for entry, into the evaluator's
/// context, so the expression runs against exactly the built
/// namespace, with the three built-ins and the diagnostic built-in
/// registered.  Whatever the run queued or changed is translated by
/// the verified drain and diff logic: on success the returned list is
/// the outcome translation of the built namespace for the result
/// flag, queued commands and final namespace the run produced.  A
/// result of boolean `false` suppresses every action.
pub fn eval_action_expr(
    expr: &evalexpr::Node,
    devices: &DevicesState,
    flattened_scenes: &FlattenedScenesConfig,
    flattened_groups: &FlattenedGroupsConfig,
) -> (r: Result<Vec<Action>, CoreError>)
    ensures
        build_ctx_spec(devices.deep_view(), flattened_scenes.deep_view(),
            flattened_groups.deep_view()) is None ==> r == Err::<Vec<Action>,
            CoreError>(CoreError::Conversion),
        r != Err::<Vec<Action>, CoreError>(CoreError::Context),
        r is Ok ==> (exists|result_false: bool, calls: Seq<PendingCommandS>,
            fin: Seq<(Seq<char>, ScalarS)>|
            #[trigger] outcome_actions(result_false, calls,
                build_ctx_spec(devices.deep_view(), flattened_scenes.deep_view(),
                    flattened_groups.deep_view())->Some_0, fin, devices.deep_view())
                == Ok::<Seq<ActionS>, CoreError>(r->Ok_0.deep_view())),
{
    let built: EvaluationContext = match state_to_eval_context(devices, flattened_scenes,
        flattened_groups) {
        Ok(c) => c,
        Err(e) => {
            return Err(e);
        },
    };

    // Load the namespace into the evaluator's context.  The built
    // namespace has unique keys, so every name is fresh and every set
    // succeeds; at the end the evaluator's variables are exactly the
    // built namespace's model.
    let mut hm: evalexpr::HashMapContext = ctx_new();
    let n: usize = built.len();
    let mut i: usize = 0;
    proof {
        assert(built@.subrange(0, 0).len() == 0);
    }
    #[verifier::loop_isolation(false)]
    while i < n
        invariant
            i <= n,
            n == built@.len(),
            ctx_model(hm) == ns_model(built@.subrange(0, i as int)),
            builtins_disabled(hm),
        decreases n - i,
    {
        let ghost pre = built@.subrange(0, (i + 1) as int);
        proof {
            assert(pre.drop_last() =~= built@.subrange(0, i as int));
            assert(pre.last() == built@[i as int]);
            lemma_ns_model_dom(built@.subrange(0, i as int));
            if ctx_model(hm).dom().contains(built@[i as int].0) {
                let j = choose|j: int| 0 <= j < i
                    && built@.subrange(0, i as int)[j].0 == built@[i as int].0;
                assert(built@[j].0 == built@[i as int].0);
                assert(false);
            }
        }
        let ev: evalexpr::Value = to_eval_value(built.value_at(i));
        match ctx_set_value(&mut hm, built.key_at(i), ev) {
            Ok(()) => {
                proof {
                    assert(ctx_model(hm) == ns_model(pre));
                }
            },
            Err(_) => {
                proof {
                    assert(false);
                }
                return Err(CoreError::Context);
            },
        }
        i = i + 1;
    }
    proof {
        assert(built@.subrange(0, n as int) =~= built@);
    }

    // Register the diagnostic and the three side-effecting built-ins.
    let lines: Vec<String> = context_debug_lines(&built);
    match register_dbg(&mut hm, lines) {
        Ok(()) => {},
        Err(e) => {
            return Err(e);
        },
    }
    let mut log: CallLog = log_new();
    match register_activate_scene(&mut hm, &log) {
        Ok(()) => {},
        Err(e) => {
            return Err(e);
        },
    }
    match register_custom_action(&mut hm, &log) {
        Ok(()) => {},
        Err(e) => {
            return Err(e);
        },
    }
    match register_trigger_routine(&mut hm, &log) {
        Ok(()) => {},
        Err(e) => {
            return Err(e);
        },
    }

    // Run the expression against exactly the built namespace.
    proof {
        assert(ctx_model(hm) == ns_model(built@));
    }
    let result: evalexpr::Value = match eval_node(expr, &mut hm, &mut log) {
        Ok(v) => v,
        Err(e) => {
            return Err(e);
        },
    };

    // A boolean `false` suppresses every action.
    if value_is_false(&result) {
        let out: Vec<Action> = Vec::new();
        proof {
            assert(out.deep_view() =~= Seq::<ActionS>::empty());
            assert(outcome_actions(true, Seq::<PendingCommandS>::empty(),
                build_ctx_spec(devices.deep_view(), flattened_scenes.deep_view(),
                    flattened_groups.deep_view())->Some_0,
                Seq::<(Seq<char>, ScalarS)>::empty(), devices.deep_view())
                == Ok::<Seq<ActionS>, CoreError>(out.deep_view()));
        }
        return Ok(out);
    }

    // Read the final namespace back and rebuild it as this crate's
    // own context.
    let raw: Vec<(String, evalexpr::Value)> = ctx_variables(&hm);
    let mut final_ns: EvaluationContext = EvaluationContext::new();
    let m: usize = raw.len();
    let mut j: usize = 0;
    #[verifier::loop_isolation(false)]
    while j < m
        invariant
            j <= m,
            m == raw@.len(),
            final_ns.wf(),
        decreases m - j,
    {
        let v: Scalar = match from_eval_value(&raw[j].1) {
            Ok(v) => v,
            Err(e) => {
                return Err(e);
            },
        };
        final_ns.set(raw[j].0.clone(), v);
        j = j + 1;
    }

    let calls: Vec<PendingCommand> = log_take(&log);
    match translate_outcome(false, &calls, &built, &final_ns, devices) {
        Ok(a) => {
            proof {
                assert(outcome_actions(false, calls.deep_view(),
                    build_ctx_spec(devices.deep_view(), flattened_scenes.deep_view(),
                        flattened_groups.deep_view())->Some_0,
                    final_ns@, devices.deep_view())
                    == Ok::<Seq<ActionS>, CoreError>(a.deep_view()));
            }
            Ok(a)
        },
        Err(e) => {
            proof {
                lemma_outcome_actions_error_kind(false, calls.deep_view(), built@,
                    final_ns@, devices.deep_view());
            }
            Err(e)
        },
    }
}

} // verus!
