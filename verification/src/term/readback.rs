//! The readback of a term from an interaction net: the reading of a port
//! and the placing of the lets of tuple nodes.
use vstd::prelude::*;
use hvmc::run::Val;
use std::collections::HashMap;
use indexmap::IndexSet;
use crate::net::{valid_port, INet, Node, NodeId, NodeKind, Port, SlotId};
use super::net_to_term::{op_of_label, port_key, NameGen, Scope};
use super::{var_name, Book, DefId, LetPat, MatchNumV, Name, Op, PatV, Term, TermV};
use super::fix_names::{no_let_var, no_let_var_arms};
use super::construct::num_match_v;
use super::free_vars::free_vars_v;
use super::let_insertion::{fv_set, lemma_search_no_let_var, search_v, CtxV, LetInsertion};
use crate::collections::{index_set_items, index_set_new};
use super::LetPatV;

verus! {

/// What the readback keeps while it reads: the id of each variable port,
/// the next id, the stack of the slots it entered each duplicator label
/// through, and the tuple nodes whose lets are still to be read (and all
/// tuple nodes met).
pub struct ReadState {
    pub ids: Map<u128, Val>,
    pub counter: nat,
    pub dups: Map<u32, Seq<u64>>,
    pub pending: Seq<NodeId>,
    pub seen: Set<NodeId>,
}

/// The stack of a duplicator label; none is an empty one.
pub open spec fn stack_of(dups: Map<u32, Seq<u64>>, lab: u32) -> Seq<u64> {
    if dups.contains_key(lab) {
        dups[lab]
    } else {
        Seq::empty()
    }
}

/// The name of the variable at a port, giving the port the next id where it
/// has none; `None` where the ids are exhausted.
pub open spec fn var_v(st: ReadState, p: Port) -> Option<(Seq<char>, ReadState)> {
    let k = port_key(p);
    if st.ids.contains_key(k) {
        Some((var_name(st.ids[k] as nat), st))
    } else if st.counter < Val::MAX {
        Some((
            var_name(st.counter),
            ReadState { ids: st.ids.insert(k, st.counter as Val), counter: st.counter + 1, ..st },
        ))
    } else {
        None
    }
}

/// The name bound at a port, none where the port is linked to an eraser.
pub open spec fn decl_v(net: INet, st: ReadState, p: Port) -> Option<(Option<Seq<char>>, ReadState)> {
    if net.kind_at(net.spec_enter(p).0) == NodeKind::Era {
        Some((None, st))
    } else {
        match var_v(st, p) {
            Some((n, st1)) => Some((Some(n), st1)),
            None => None,
        }
    }
}

/// The tag of a lambda or application label: none for label 0, else the
/// label's name (`None` where the label has none).
pub open spec fn label_tag(labels: Map<u32, Seq<char>>, lab: u32) -> Option<Option<Seq<char>>> {
    if lab == 0 {
        Some(None)
    } else if labels.contains_key(lab) {
        Some(Some(labels[lab]))
    } else {
        None
    }
}

/// Reads two ports in turn.
pub open spec fn read2_v(
    net: INet,
    a: Port,
    b: Port,
    st: ReadState,
    labels: Map<u32, Seq<char>>,
    fuel: nat,
) -> Option<(TermV, TermV, bool, ReadState)>
    decreases fuel, 1nat,
{
    match read_v(net, a, st, labels, fuel) {
        None => None,
        Some((x, vx, st1)) => match read_v(net, b, st1, labels, fuel) {
            None => None,
            Some((y, vy, st2)) => Some((x, y, vx && vy, st2)),
        },
    }
}

/// The term read from a port, whether it is a valid readback, and the
/// state after; `None` where the reading would fail (a label without a
/// name, a slot that the node kind does not read, an unknown operation, a
/// successor arm that is no lambda, exhausted ids). Where the reading nests
/// deeper than `fuel`, an eraser stands for the rest, as an invalid
/// readback.
pub open spec fn read_v(net: INet, p: Port, st: ReadState, labels: Map<u32, Seq<char>>, fuel: nat) -> Option<
    (TermV, bool, ReadState),
>
    decreases fuel, 0nat,
{
    if fuel == 0 {
        Some((TermV::Era, false, st))
    } else {
        let f = (fuel - 1) as nat;
        let node = p.0;
        match net.kind_at(node) {
            NodeKind::Era => Some((TermV::Era, p.1 == 0, st)),
            NodeKind::Con { lab } => if p.1 == 0 {
                match decl_v(net, st, Port(node, 1)) {
                    None => None,
                    Some((nam, st1)) => match read_v(net, net.spec_enter(Port(node, 2)), st1, labels, f) {
                        None => None,
                        Some((bod, valid, st2)) => match label_tag(labels, lab) {
                            None => None,
                            Some(tag) => Some((TermV::Lam { tag, nam, bod: Box::new(bod) }, valid, st2)),
                        },
                    },
                }
            } else if p.1 == 1 {
                match var_v(st, p) {
                    None => None,
                    Some((n, st1)) => Some((TermV::Var { nam: n }, true, st1)),
                }
            } else {
                match read2_v(net, net.spec_enter(Port(node, 0)), net.spec_enter(Port(node, 1)), st, labels, f) {
                    None => None,
                    Some((fun, arg, valid, st1)) => match label_tag(labels, lab) {
                        None => None,
                        Some(tag) => Some((TermV::App { tag, fun: Box::new(fun), arg: Box::new(arg) }, valid, st1)),
                    },
                }
            },
            NodeKind::Mat => if p.1 == 2 {
                match read_v(net, net.spec_enter(Port(node, 0)), st, labels, f) {
                    None => None,
                    Some((cond, cv, st1)) => {
                        let sel = net.spec_enter(Port(node, 1)).0;
                        if net.kind_at(sel) != (NodeKind::Con { lab: 0 }) {
                            Some((num_match_v(cond, TermV::Era, None, TermV::Era), false, st1))
                        } else {
                            match read2_v(net, net.spec_enter(Port(sel, 1)), net.spec_enter(Port(sel, 2)), st1, labels, f) {
                                None => None,
                                Some((zero, succ, zsv, st2)) => match succ {
                                    TermV::Lam { nam, bod, .. } => Some((num_match_v(cond, zero, nam, *bod), cv && zsv, st2)),
                                    _ => None,
                                },
                            }
                        }
                    },
                }
            } else {
                None
            },
            NodeKind::Ref { def_id } => Some((TermV::Ref { def_id: def_id.0 }, true, st)),
            NodeKind::Dup { lab } => if p.1 == 0 {
                let stack = stack_of(st.dups, lab);
                if stack.len() > 0 {
                    let slot = stack.last();
                    let st1 = ReadState { dups: st.dups.insert(lab, stack.drop_last()), ..st };
                    match read_v(net, net.spec_enter(Port(node, slot)), st1, labels, f) {
                        None => None,
                        Some((val, valid, st2)) => if st2.dups.contains_key(lab) {
                            Some((val, valid, ReadState { dups: st2.dups.insert(lab, st2.dups[lab].push(slot)), ..st2 }))
                        } else {
                            None
                        },
                    }
                } else {
                    let st1 = ReadState { dups: st.dups.insert(lab, stack), ..st };
                    match read2_v(net, net.spec_enter(Port(node, 1)), net.spec_enter(Port(node, 2)), st1, labels, f) {
                        None => None,
                        Some((fst, snd, valid, st2)) => {
                            let tag = if labels.contains_key(lab) { labels[lab] } else { "auto"@ };
                            Some((TermV::Sup { tag, fst: Box::new(fst), snd: Box::new(snd) }, valid, st2))
                        },
                    }
                }
            } else {
                let st1 = ReadState { dups: st.dups.insert(lab, stack_of(st.dups, lab).push(p.1)), ..st };
                match read_v(net, net.spec_enter(Port(node, 0)), st1, labels, f) {
                    None => None,
                    Some((body, valid, st2)) => {
                        let stack2 = stack_of(st2.dups, lab);
                        if stack2.len() > 0 {
                            Some((body, valid, ReadState { dups: st2.dups.insert(lab, stack2.drop_last()), ..st2 }))
                        } else {
                            None
                        }
                    },
                }
            },
            NodeKind::Num { val } => Some((TermV::Num { val }, true, st)),
            NodeKind::Op2 { opr } => if p.1 == 2 {
                match read2_v(net, net.spec_enter(Port(node, 0)), net.spec_enter(Port(node, 1)), st, labels, f) {
                    None => None,
                    Some((fst, snd, valid, st1)) => match op_of_label(opr) {
                        None => None,
                        Some(op) => Some((TermV::Opx { op, fst: Box::new(fst), snd: Box::new(snd) }, valid, st1)),
                    },
                }
            } else {
                None
            },
            NodeKind::Rot => Some((TermV::Era, false, st)),
            NodeKind::Tup => if p.1 == 0 {
                match read2_v(net, net.spec_enter(Port(node, 1)), net.spec_enter(Port(node, 2)), st, labels, f) {
                    None => None,
                    Some((fst, snd, valid, st1)) => Some((TermV::Tup { fst: Box::new(fst), snd: Box::new(snd) }, valid, st1)),
                }
            } else {
                let st1 = if st.seen.contains(node) {
                    st
                } else {
                    ReadState { pending: st.pending.push(node), seen: st.seen.insert(node), ..st }
                };
                match var_v(st1, p) {
                    None => None,
                    Some((n, st2)) => Some((TermV::Var { nam: n }, true, st2)),
                }
            },
        }
    }
}

/// The stacks of duplicator slots.
pub open spec fn dups_view(d: HashMap<u32, Vec<u64>>) -> Map<u32, Seq<u64>> {
    d@.map_values(|v: Vec<u64>| v@)
}

/// The names of the labels.
pub open spec fn labels_view(l: HashMap<u32, Name>) -> Map<u32, Seq<char>> {
    l@.map_values(|n: Name| n@)
}

/// The readback state that the name generator and the scopes hold.
pub open spec fn state_of(ng: NameGen, dups: HashMap<u32, Vec<u64>>, tups: Scope) -> ReadState {
    ReadState {
        ids: ng.ids(),
        counter: ng.counter() as nat,
        dups: dups_view(dups),
        pending: tups.pending(),
        seen: tups.seen(),
    }
}

/// What every readback state keeps: the slots on the stacks are auxiliary
/// slots, and the tuple nodes met are finitely many nodes of the net, the
/// pending ones among them.
pub open spec fn state_ok(net: INet, st: ReadState) -> bool {
    &&& forall|lab: u32, i: int|
        0 <= i < stack_of(st.dups, lab).len() ==> 1 <= #[trigger] stack_of(st.dups, lab)[i] <= 2
    &&& st.seen.finite()
    &&& forall|n: NodeId| #[trigger] st.seen.contains(n) ==> n < net.nodes@.len()
    &&& forall|i: int| 0 <= i < st.pending.len() ==> st.seen.contains(#[trigger] st.pending[i])
    &&& st.counter <= Val::MAX
}

/// `entry(lab).or_default().push(slot)`.
fn dup_push(d: &mut HashMap<u32, Vec<u64>>, lab: u32, slot: u64)
    ensures
        dups_view(*final(d)) == dups_view(*old(d)).insert(lab, stack_of(dups_view(*old(d)), lab).push(slot)),
{
    let mut v = match d.remove(&lab) {
        Some(v) => v,
        None => Vec::new(),
    };
    v.push(slot);
    d.insert(lab, v);
    assert(dups_view(*d) =~= dups_view(*old(d)).insert(lab, stack_of(dups_view(*old(d)), lab).push(slot)));
}

/// `entry(lab).or_default().pop()`.
fn dup_pop(d: &mut HashMap<u32, Vec<u64>>, lab: u32) -> (r: Option<u64>)
    ensures
        ({
            let s = stack_of(dups_view(*old(d)), lab);
            if s.len() > 0 {
                r == Some(s.last()) && dups_view(*final(d)) == dups_view(*old(d)).insert(lab, s.drop_last())
            } else {
                r is None && dups_view(*final(d)) == dups_view(*old(d)).insert(lab, s)
            }
        }),
{
    let mut v = match d.remove(&lab) {
        Some(v) => v,
        None => Vec::new(),
    };
    let r = v.pop();
    d.insert(lab, v);
    proof {
        let s = stack_of(dups_view(*old(d)), lab);
        if s.len() > 0 {
            assert(dups_view(*d) =~= dups_view(*old(d)).insert(lab, s.drop_last()));
        } else {
            assert(dups_view(*d) =~= dups_view(*old(d)).insert(lab, s));
        }
    }
    r
}

/// `get_mut(&lab).unwrap().push(slot)`, where the label has a stack.
fn dup_push_existing(d: &mut HashMap<u32, Vec<u64>>, lab: u32, slot: u64)
    requires
        dups_view(*old(d)).contains_key(lab),
    ensures
        dups_view(*final(d)) == dups_view(*old(d)).insert(lab, dups_view(*old(d))[lab].push(slot)),
{
    let mut v = match d.remove(&lab) {
        Some(v) => v,
        None => Vec::new(),
    };
    v.push(slot);
    d.insert(lab, v);
    assert(dups_view(*d) =~= dups_view(*old(d)).insert(lab, dups_view(*old(d))[lab].push(slot)));
}

/// The tag of a label: none for 0, else the label's name.
fn label_tag_exec(labels_to_tag: &HashMap<u32, Name>, lab: u32) -> (r: Option<Name>)
    requires
        label_tag(labels_view(*labels_to_tag), lab) is Some,
    ensures
        super::opt_name(r) == label_tag(labels_view(*labels_to_tag), lab)->0,
{
    if lab == 0 {
        None
    } else {
        match labels_to_tag.get(&lab) {
            Some(n) => Some(n.clone_name()),
            None => None,
        }
    }
}

/// Moving to a state whose stacks and tuple nodes are those of `st`, but
/// for the stack of one label, whose slots are auxiliary slots, keeps
/// `state_ok`.
pub proof fn lemma_state_ok_stack(net: INet, st: ReadState, lab: u32, s: Seq<u64>)
    requires
        state_ok(net, st),
        forall|i: int| 0 <= i < s.len() ==> 1 <= #[trigger] s[i] <= 2,
    ensures
        state_ok(net, ReadState { dups: st.dups.insert(lab, s), ..st }),
{
    let st1 = ReadState { dups: st.dups.insert(lab, s), ..st };
    assert forall|l: u32, i: int| 0 <= i < stack_of(st1.dups, l).len() implies 1 <= #[trigger] stack_of(
        st1.dups,
        l,
    )[i] <= 2 by {
        if l != lab {
            assert(stack_of(st1.dups, l) == stack_of(st.dups, l));
        }
    }
}

/// The ports a node's slots link to are valid ports.
pub proof fn lemma_enter_valid(net: INet, p: Port)
    requires
        net.wf(),
        valid_port(&net, p),
    ensures
        valid_port(&net, net.spec_enter(p)),
{
    assert(valid_port(&net, net.nodes@[p.0 as int].port_at(p.1)));
}

/// Reads the term at a port, as `read_v` says: the term, whether it is a
/// valid readback, and the readback state after.
#[verifier::rlimit(80)]
#[verifier::spinoff_prover]
pub(crate) fn reader(
    net: &INet,
    next: Port,
    namegen: &mut NameGen,
    dup_scope: &mut HashMap<u32, Vec<u64>>,
    tup_scope: &mut Scope,
    labels_to_tag: &HashMap<u32, Name>,
    fuel: u64,
) -> (r: (Term, bool))
    requires
        net.wf(),
        valid_port(net, next),
        state_ok(*net, state_of(*old(namegen), *old(dup_scope), *old(tup_scope))),
        read_v(
            *net,
            next,
            state_of(*old(namegen), *old(dup_scope), *old(tup_scope)),
            labels_view(*labels_to_tag),
            fuel as nat,
        ) is Some,
    ensures
        ({
            let out = read_v(
                *net,
                next,
                state_of(*old(namegen), *old(dup_scope), *old(tup_scope)),
                labels_view(*labels_to_tag),
                fuel as nat,
            )->0;
            &&& r.0@ == out.0
            &&& r.1 == out.1
            &&& state_of(*final(namegen), *final(dup_scope), *final(tup_scope)) == out.2
        }),
        state_ok(*net, state_of(*final(namegen), *final(dup_scope), *final(tup_scope))),
    decreases fuel,
{
    if fuel == 0 {
        return (Term::Era, false);
    }
    let f = fuel - 1;
    let ghost labels = labels_view(*labels_to_tag);
    let ghost st0 = state_of(*namegen, *dup_scope, *tup_scope);
    let node = next.node();
    let kind = net.node(node).kind;
    match kind {
        NodeKind::Era => (Term::Era, next.slot() == 0),
        NodeKind::Con { lab } => {
            if next.slot() == 0 {
                let nam = namegen.decl_name(net, Port(node, 1));
                let prt = net.enter_port(Port(node, 2));
                proof {
                    lemma_enter_valid(*net, Port(node, 2));
                }
                let (bod, valid) = reader(net, prt, namegen, dup_scope, tup_scope, labels_to_tag, f);
                let tag = label_tag_exec(labels_to_tag, lab);
                (Term::Lam { tag, nam, bod: Box::new(bod) }, valid)
            } else if next.slot() == 1 {
                (Term::Var { nam: namegen.var_name(next) }, true)
            } else {
                let prt = net.enter_port(Port(node, 0));
                proof {
                    lemma_enter_valid(*net, Port(node, 0));
                    lemma_enter_valid(*net, Port(node, 1));
                    assert(read2_v(*net, net.spec_enter(Port(node, 0)), net.spec_enter(Port(node, 1)), st0, labels, f as nat) is Some);
                }
                let (fun, fun_valid) = reader(net, prt, namegen, dup_scope, tup_scope, labels_to_tag, f);
                let prt = net.enter_port(Port(node, 1));
                let (arg, arg_valid) = reader(net, prt, namegen, dup_scope, tup_scope, labels_to_tag, f);
                let tag = label_tag_exec(labels_to_tag, lab);
                (Term::App { tag, fun: Box::new(fun), arg: Box::new(arg) }, fun_valid && arg_valid)
            }
        },
        NodeKind::Mat => {
            let cond_port = net.enter_port(Port(node, 0));
            proof {
                lemma_enter_valid(*net, Port(node, 0));
                lemma_enter_valid(*net, Port(node, 1));
            }
            let (cond_term, cond_valid) = reader(
                net,
                cond_port,
                namegen,
                dup_scope,
                tup_scope,
                labels_to_tag,
                f,
            );
            let sel_node = net.enter_port(Port(node, 1)).node();
            let sel_kind = net.node(sel_node).kind;
            if sel_kind != (NodeKind::Con { lab: 0 }) {
                return (Term::num_match(cond_term, Term::Era, None, Term::Era), false);
            }
            proof {
                lemma_enter_valid(*net, Port(sel_node, 1));
                lemma_enter_valid(*net, Port(sel_node, 2));
                let st1 = state_of(*namegen, *dup_scope, *tup_scope);
                assert(read2_v(*net, net.spec_enter(Port(sel_node, 1)), net.spec_enter(Port(sel_node, 2)), st1, labels, f as nat) is Some);
            }
            let zero_port = net.enter_port(Port(sel_node, 1));
            let (zero_term, zero_valid) = reader(
                net,
                zero_port,
                namegen,
                dup_scope,
                tup_scope,
                labels_to_tag,
                f,
            );
            let succ_port = net.enter_port(Port(sel_node, 2));
            let (succ_term, succ_valid) = reader(
                net,
                succ_port,
                namegen,
                dup_scope,
                tup_scope,
                labels_to_tag,
                f,
            );
            let valid = cond_valid && zero_valid && succ_valid;
            match succ_term {
                Term::Lam { nam, bod, .. } => (Term::num_match(cond_term, zero_term, nam, *bod), valid),
                _ => {
                    proof {
                        assert(false);
                    }
                    (Term::Era, false)
                },
            }
        },
        NodeKind::Ref { def_id } => (Term::Ref { def_id }, true),
        NodeKind::Dup { lab } => {
            if next.slot() == 0 {
                let popped = dup_pop(dup_scope, lab);
                match popped {
                    Some(slot) => {
                        proof {
                            let s = stack_of(st0.dups, lab);
                            assert(s[s.len() - 1] == slot);
                            assert(1 <= slot <= 2);
                            lemma_state_ok_stack(*net, st0, lab, s.drop_last());
                            lemma_enter_valid(*net, Port(node, slot));
                        }
                        let chosen = net.enter_port(Port(node, slot));
                        let (val, valid) = reader(
                            net,
                            chosen,
                            namegen,
                            dup_scope,
                            tup_scope,
                            labels_to_tag,
                            f,
                        );
                        proof {
                            let st2 = state_of(*namegen, *dup_scope, *tup_scope);
                            assert(stack_of(st2.dups, lab) == st2.dups[lab]);
                            lemma_state_ok_stack(*net, st2, lab, st2.dups[lab].push(slot));
                        }
                        dup_push_existing(dup_scope, lab, slot);
                        (val, valid)
                    },
                    None => {
                        proof {
                            lemma_state_ok_stack(*net, st0, lab, stack_of(st0.dups, lab));
                            lemma_enter_valid(*net, Port(node, 1));
                            lemma_enter_valid(*net, Port(node, 2));
                            let st1 = state_of(*namegen, *dup_scope, *tup_scope);
                            assert(read2_v(*net, net.spec_enter(Port(node, 1)), net.spec_enter(Port(node, 2)), st1, labels, f as nat) is Some);
                        }
                        let fst = net.enter_port(Port(node, 1));
                        let snd = net.enter_port(Port(node, 2));
                        let (fst, fst_valid) = reader(net, fst, namegen, dup_scope, tup_scope, labels_to_tag, f);
                        let (snd, snd_valid) = reader(net, snd, namegen, dup_scope, tup_scope, labels_to_tag, f);
                        let tag = match labels_to_tag.get(&lab) {
                            Some(n) => n.clone_name(),
                            None => Name::new("auto"),
                        };
                        (Term::Sup { tag, fst: Box::new(fst), snd: Box::new(snd) }, fst_valid && snd_valid)
                    },
                }
            } else {
                proof {
                    lemma_state_ok_stack(*net, st0, lab, stack_of(st0.dups, lab).push(next.1));
                    lemma_enter_valid(*net, Port(node, 0));
                }
                let body = net.enter_port(Port(node, 0));
                dup_push(dup_scope, lab, next.slot());
                let (body, valid) = reader(net, body, namegen, dup_scope, tup_scope, labels_to_tag, f);
                proof {
                    let st2 = state_of(*namegen, *dup_scope, *tup_scope);
                    let s2 = stack_of(st2.dups, lab);
                    lemma_state_ok_stack(*net, st2, lab, s2.drop_last());
                }
                let _ = dup_pop(dup_scope, lab);
                (body, valid)
            }
        },
        NodeKind::Num { val } => (Term::Num { val }, true),
        NodeKind::Op2 { opr } => {
            proof {
                lemma_enter_valid(*net, Port(node, 0));
                lemma_enter_valid(*net, Port(node, 1));
                assert(read2_v(*net, net.spec_enter(Port(node, 0)), net.spec_enter(Port(node, 1)), st0, labels, f as nat) is Some);
            }
            let op_port = net.enter_port(Port(node, 0));
            let (fst, fst_valid) = reader(net, op_port, namegen, dup_scope, tup_scope, labels_to_tag, f);
            let arg_port = net.enter_port(Port(node, 1));
            let (snd, snd_valid) = reader(net, arg_port, namegen, dup_scope, tup_scope, labels_to_tag, f);
            match Op::from_hvmc_label(opr) {
                Some(op) => (Term::Opx { op, fst: Box::new(fst), snd: Box::new(snd) }, fst_valid && snd_valid),
                None => {
                    proof {
                        assert(false);
                    }
                    (Term::Era, false)
                },
            }
        },
        NodeKind::Rot => (Term::Era, false),
        NodeKind::Tup => {
            if next.slot() == 0 {
                proof {
                    lemma_enter_valid(*net, Port(node, 1));
                    lemma_enter_valid(*net, Port(node, 2));
                    assert(read2_v(*net, net.spec_enter(Port(node, 1)), net.spec_enter(Port(node, 2)), st0, labels, f as nat) is Some);
                }
                let fst_port = net.enter_port(Port(node, 1));
                let (fst, fst_valid) = reader(net, fst_port, namegen, dup_scope, tup_scope, labels_to_tag, f);
                let snd_port = net.enter_port(Port(node, 2));
                let (snd, snd_valid) = reader(net, snd_port, namegen, dup_scope, tup_scope, labels_to_tag, f);
                (Term::Tup { fst: Box::new(fst), snd: Box::new(snd) }, fst_valid && snd_valid)
            } else {
                tup_scope.insert(node);
                (Term::Var { nam: namegen.var_name(next) }, true)
            }
        },
    }
}

/// How far the pending tuple nodes outnumber twice the nodes met: reading
/// never raises it, since each node it adds to the pending ones is one it
/// had not met.
pub open spec fn tick(st: ReadState) -> int {
    st.pending.len() - 2 * st.seen.len()
}

/// A state moves on from another: it keeps `state_ok`, has met every
/// tuple node the other had, and no higher `tick`.
pub open spec fn moves_on(net: INet, st: ReadState, st2: ReadState) -> bool {
    &&& state_ok(net, st2)
    &&& st.seen.subset_of(st2.seen)
    &&& tick(st2) <= tick(st)
}

/// Naming a variable only gives ids.
pub proof fn lemma_var_v(net: INet, st: ReadState, p: Port)
    requires
        state_ok(net, st),
        var_v(st, p) is Some,
    ensures
        moves_on(net, st, var_v(st, p).unwrap().1),
{
}

/// Two arms have no single-variable let where their bodies have none.
pub proof fn lemma_two_arms(arms: Seq<(PatV, TermV)>)
    requires
        arms.len() == 2,
    ensures
        no_let_var_arms(arms) == (no_let_var(arms[0].1) && no_let_var(arms[1].1)),
{
    let a1 = arms.subrange(0, 1);
    assert(arms.subrange(0, arms.len() - 1) == a1);
    assert(a1.subrange(0, a1.len() - 1) =~= Seq::<(PatV, TermV)>::empty());
    assert(a1[0] == arms[0]);
    assert(no_let_var_arms(Seq::<(PatV, TermV)>::empty()));
    assert(no_let_var_arms(a1) == no_let_var(arms[0].1));
}

/// Reading a port keeps the state well formed, moves it on, and gives a
/// term without single-variable lets.
pub proof fn lemma_read_v(net: INet, p: Port, st: ReadState, labels: Map<u32, Seq<char>>, fuel: nat)
    requires
        net.wf(),
        valid_port(&net, p),
        state_ok(net, st),
        read_v(net, p, st, labels, fuel) is Some,
    ensures
        moves_on(net, st, read_v(net, p, st, labels, fuel).unwrap().2),
        no_let_var(read_v(net, p, st, labels, fuel).unwrap().0),
    decreases fuel, 0nat,
{
    if fuel == 0 {
        return;
    }
    let f = (fuel - 1) as nat;
    let node = p.0;
    match net.kind_at(node) {
        NodeKind::Con { lab } => {
            if p.1 == 0 {
                let (nam, st1) = decl_v(net, st, Port(node, 1))->0;
                if net.kind_at(net.spec_enter(Port(node, 1)).0) != NodeKind::Era {
                    lemma_var_v(net, st, Port(node, 1));
                }
                lemma_enter_valid(net, Port(node, 2));
                lemma_read_v(net, net.spec_enter(Port(node, 2)), st1, labels, f);
            } else if p.1 == 1 {
                lemma_var_v(net, st, p);
            } else {
                lemma_enter_valid(net, Port(node, 0));
                lemma_enter_valid(net, Port(node, 1));
                lemma_read2_v(net, net.spec_enter(Port(node, 0)), net.spec_enter(Port(node, 1)), st, labels, f);
            }
        },
        NodeKind::Mat => {
            lemma_enter_valid(net, Port(node, 0));
            lemma_enter_valid(net, Port(node, 1));
            lemma_read_v(net, net.spec_enter(Port(node, 0)), st, labels, f);
            let (cond, cv, st1) = read_v(net, net.spec_enter(Port(node, 0)), st, labels, f)->0;
            let sel = net.spec_enter(Port(node, 1)).0;
            lemma_two_arms(seq![(PatV::Num(MatchNumV::Zero), TermV::Era), (PatV::Num(MatchNumV::Succ(None)), TermV::Era)]);
            if net.kind_at(sel) == (NodeKind::Con { lab: 0 }) {
                lemma_enter_valid(net, Port(sel, 1));
                lemma_enter_valid(net, Port(sel, 2));
                lemma_read2_v(net, net.spec_enter(Port(sel, 1)), net.spec_enter(Port(sel, 2)), st1, labels, f);
                let (zero, succ, zsv, st2) = read2_v(net, net.spec_enter(Port(sel, 1)), net.spec_enter(Port(sel, 2)), st1, labels, f)->0;
                if let TermV::Lam { nam, bod, .. } = succ {
                    lemma_two_arms(seq![(PatV::Num(MatchNumV::Zero), zero), (PatV::Num(MatchNumV::Succ(nam)), *bod)]);
                }
            }
        },
        NodeKind::Dup { lab } => {
            if p.1 == 0 {
                let stack = stack_of(st.dups, lab);
                if stack.len() > 0 {
                    let slot = stack.last();
                    assert(stack[stack.len() - 1] == slot);
                    let st1 = ReadState { dups: st.dups.insert(lab, stack.drop_last()), ..st };
                    lemma_state_ok_stack(net, st, lab, stack.drop_last());
                    lemma_enter_valid(net, Port(node, slot));
                    lemma_read_v(net, net.spec_enter(Port(node, slot)), st1, labels, f);
                    let (val, valid, st2) = read_v(net, net.spec_enter(Port(node, slot)), st1, labels, f)->0;
                    assert(stack_of(st2.dups, lab) == st2.dups[lab]);
                    lemma_state_ok_stack(net, st2, lab, st2.dups[lab].push(slot));
                } else {
                    let st1 = ReadState { dups: st.dups.insert(lab, stack), ..st };
                    lemma_state_ok_stack(net, st, lab, stack);
                    lemma_enter_valid(net, Port(node, 1));
                    lemma_enter_valid(net, Port(node, 2));
                    lemma_read2_v(net, net.spec_enter(Port(node, 1)), net.spec_enter(Port(node, 2)), st1, labels, f);
                }
            } else {
                let st1 = ReadState { dups: st.dups.insert(lab, stack_of(st.dups, lab).push(p.1)), ..st };
                lemma_state_ok_stack(net, st, lab, stack_of(st.dups, lab).push(p.1));
                lemma_enter_valid(net, Port(node, 0));
                lemma_read_v(net, net.spec_enter(Port(node, 0)), st1, labels, f);
                let (body, valid, st2) = read_v(net, net.spec_enter(Port(node, 0)), st1, labels, f)->0;
                lemma_state_ok_stack(net, st2, lab, stack_of(st2.dups, lab).drop_last());
            }
        },
        NodeKind::Op2 { .. } => {
            lemma_enter_valid(net, Port(node, 0));
            lemma_enter_valid(net, Port(node, 1));
            lemma_read2_v(net, net.spec_enter(Port(node, 0)), net.spec_enter(Port(node, 1)), st, labels, f);
        },
        NodeKind::Tup => {
            if p.1 == 0 {
                lemma_enter_valid(net, Port(node, 1));
                lemma_enter_valid(net, Port(node, 2));
                lemma_read2_v(net, net.spec_enter(Port(node, 1)), net.spec_enter(Port(node, 2)), st, labels, f);
            } else {
                let st1 = if st.seen.contains(node) {
                    st
                } else {
                    ReadState { pending: st.pending.push(node), seen: st.seen.insert(node), ..st }
                };
                assert(state_ok(net, st1)) by {
                    assert forall|i: int| 0 <= i < st1.pending.len() implies st1.seen.contains(#[trigger] st1.pending[i]) by {
                        if !st.seen.contains(node) && i < st.pending.len() {
                            assert(st1.pending[i] == st.pending[i]);
                        }
                    }
                }
                lemma_var_v(net, st1, p);
            }
        },
        _ => {},
    }
}

/// Reading two ports in turn moves the state on, and gives terms without
/// single-variable lets.
pub proof fn lemma_read2_v(net: INet, a: Port, b: Port, st: ReadState, labels: Map<u32, Seq<char>>, fuel: nat)
    requires
        net.wf(),
        valid_port(&net, a),
        valid_port(&net, b),
        state_ok(net, st),
        read2_v(net, a, b, st, labels, fuel) is Some,
    ensures
        moves_on(net, st, read2_v(net, a, b, st, labels, fuel).unwrap().3),
        no_let_var(read2_v(net, a, b, st, labels, fuel).unwrap().0),
        no_let_var(read2_v(net, a, b, st, labels, fuel).unwrap().1),
    decreases fuel, 1nat,
{
    lemma_read_v(net, a, st, labels, fuel);
    let st1 = read_v(net, a, st, labels, fuel).unwrap().2;
    lemma_read_v(net, b, st1, labels, fuel);
}

/// A finite set of node ids below `n` holds at most `n` of them.
pub proof fn lemma_bounded_nodes(s: Set<NodeId>, n: nat)
    requires
        s.finite(),
        forall|x: NodeId| #[trigger] s.contains(x) ==> x < n,
    ensures
        s.len() <= n,
    decreases n,
{
    if n == 0 {
        assert(s =~= Set::<NodeId>::empty());
    } else if n - 1 > usize::MAX {
        lemma_bounded_nodes(s, (n - 1) as nat);
    } else {
        let top = (n - 1) as NodeId;
        let s2 = s.remove(top);
        assert forall|x: NodeId| #[trigger] s2.contains(x) implies x < (n - 1) as nat by {
            assert(s.contains(x) && x != top);
        }
        lemma_bounded_nodes(s2, (n - 1) as nat);
    }
}

/// The let of a tuple node: its value is read from the port the node's
/// main port links to, its two names are those bound at its auxiliary
/// ports, and it is placed in `main` where the search finds a place, else
/// around `main`. `None` where a reading fails, or where the let's
/// variables are used nowhere in `main`.
pub open spec fn let_v(
    net: INet,
    main: TermV,
    tup: NodeId,
    st: ReadState,
    labels: Map<u32, Seq<char>>,
    fuel: nat,
) -> Option<(TermV, bool, ReadState)> {
    match read_v(net, net.spec_enter(Port(tup, 0)), st, labels, fuel) {
        None => None,
        Some((val, val_valid, st1)) => match decl_v(net, st1, Port(tup, 1)) {
            None => None,
            Some((fst, st2)) => match decl_v(net, st2, Port(tup, 2)) {
                None => None,
                Some((snd, st3)) => {
                    let found = search_v(CtxV::Todo(fst, snd, val), main, free_vars_v(val));
                    match found.1 {
                        CtxV::Placed => Some((found.0, val_valid, st3)),
                        CtxV::Unplaced(f, s, v) => Some((
                            TermV::Let { pat: LetPatV::Tup(f, s), val: Box::new(v), nxt: Box::new(found.0) },
                            val_valid,
                            st3,
                        )),
                        CtxV::Todo(..) => None,
                    }
                },
            },
        },
    }
}

/// Placing a let moves the state on, and keeps `main` free of
/// single-variable lets.
pub proof fn lemma_let_v(
    net: INet,
    main: TermV,
    tup: NodeId,
    st: ReadState,
    labels: Map<u32, Seq<char>>,
    fuel: nat,
)
    requires
        net.wf(),
        state_ok(net, st),
        tup < net.nodes@.len(),
        let_v(net, main, tup, st, labels, fuel) is Some,
    ensures
        moves_on(net, st, let_v(net, main, tup, st, labels, fuel).unwrap().2),
        no_let_var(main) ==> no_let_var(let_v(net, main, tup, st, labels, fuel).unwrap().0),
{
    lemma_enter_valid(net, Port(tup, 0));
    lemma_read_v(net, net.spec_enter(Port(tup, 0)), st, labels, fuel);
    let (val, vv, st1) = read_v(net, net.spec_enter(Port(tup, 0)), st, labels, fuel).unwrap();
    let (fst, st2) = decl_v(net, st1, Port(tup, 1)).unwrap();
    if net.kind_at(net.spec_enter(Port(tup, 1)).0) != NodeKind::Era {
        lemma_var_v(net, st1, Port(tup, 1));
    }
    let (snd, st3) = decl_v(net, st2, Port(tup, 2)).unwrap();
    if net.kind_at(net.spec_enter(Port(tup, 2)).0) != NodeKind::Era {
        lemma_var_v(net, st2, Port(tup, 2));
    }
    if no_let_var(main) {
        lemma_search_no_let_var(CtxV::Todo(fst, snd, val), main, free_vars_v(val));
    }
}

/// The readback's measure of the work left: twice the tuple nodes not yet
/// met, and the pending ones.
pub open spec fn work_left(net: INet, st: ReadState) -> int {
    2 * (net.nodes@.len() - st.seen.len()) + st.pending.len()
}

/// Places the lets of the pending tuple nodes, the most recently found
/// first, until none is pending; `valid` gathers whether each value was a
/// valid readback.
pub open spec fn lets_v(
    net: INet,
    main: TermV,
    valid: bool,
    st: ReadState,
    labels: Map<u32, Seq<char>>,
    fuel: nat,
) -> Option<(TermV, bool, ReadState)>
    decreases work_left(net, st),
    when net.wf() && state_ok(net, st)
{
    if st.pending.len() == 0 {
        Some((main, valid, st))
    } else {
        let tup = st.pending.last();
        let st0 = ReadState { pending: st.pending.drop_last(), ..st };
        match let_v(net, main, tup, st0, labels, fuel) {
            None => None,
            Some((m1, vv, st1)) => {
                proof {
                    lemma_pop_ok(net, st);
                    lemma_let_v(net, main, tup, st0, labels, fuel);
                    lemma_bounded_nodes(st1.seen, net.nodes@.len());
                }
                lets_v(net, m1, valid && vv, st1, labels, fuel)
            },
        }
    }
}

/// Placing the lets of the pending tuple nodes keeps a term free of
/// single-variable lets.
pub proof fn lemma_lets_nlv(
    net: INet,
    main: TermV,
    valid: bool,
    st: ReadState,
    labels: Map<u32, Seq<char>>,
    fuel: nat,
)
    requires
        net.wf(),
        state_ok(net, st),
        no_let_var(main),
        lets_v(net, main, valid, st, labels, fuel) is Some,
    ensures
        no_let_var(lets_v(net, main, valid, st, labels, fuel).unwrap().0),
    decreases work_left(net, st),
{
    if st.pending.len() > 0 {
        let tup = st.pending.last();
        let st0 = ReadState { pending: st.pending.drop_last(), ..st };
        lemma_pop_ok(net, st);
        lemma_let_v(net, main, tup, st0, labels, fuel);
        let (m1, vv, st1) = let_v(net, main, tup, st0, labels, fuel).unwrap();
        lemma_bounded_nodes(st1.seen, net.nodes@.len());
        lemma_lets_nlv(net, m1, valid && vv, st1, labels, fuel);
    }
}

/// Placing the lets of the pending tuple nodes keeps an invalid readback
/// invalid.
pub proof fn lemma_lets_invalid(
    net: INet,
    main: TermV,
    valid: bool,
    st: ReadState,
    labels: Map<u32, Seq<char>>,
    fuel: nat,
)
    requires
        net.wf(),
        state_ok(net, st),
        lets_v(net, main, valid, st, labels, fuel) is Some,
    ensures
        lets_v(net, main, valid, st, labels, fuel).unwrap().1 ==> valid,
    decreases work_left(net, st),
{
    if st.pending.len() > 0 {
        let tup = st.pending.last();
        let st0 = ReadState { pending: st.pending.drop_last(), ..st };
        lemma_pop_ok(net, st);
        lemma_let_v(net, main, tup, st0, labels, fuel);
        let (m1, vv, st1) = let_v(net, main, tup, st0, labels, fuel).unwrap();
        lemma_bounded_nodes(st1.seen, net.nodes@.len());
        lemma_lets_invalid(net, m1, valid && vv, st1, labels, fuel);
    }
}

/// The parts a readback cannot read make it invalid: the root node, an
/// eraser entered by another port than its main one, and a number match
/// whose selector is not a plain lambda node.
pub proof fn law_read_invalid_parts(net: INet, p: Port, st: ReadState, labels: Map<u32, Seq<char>>, fuel: nat)
    requires
        fuel > 0,
        read_v(net, p, st, labels, fuel) is Some,
    ensures
        net.kind_at(p.0) == NodeKind::Rot ==> !read_v(net, p, st, labels, fuel).unwrap().1,
        net.kind_at(p.0) == NodeKind::Era && p.1 != 0 ==> !read_v(net, p, st, labels, fuel).unwrap().1,
        net.kind_at(p.0) == NodeKind::Mat && net.kind_at(net.spec_enter(Port(p.0, 1)).0) != (NodeKind::Con {
            lab: 0,
        }) ==> !read_v(net, p, st, labels, fuel).unwrap().1,
{
}

/// Taking the last pending tuple node keeps `state_ok`; the node is a node
/// of the net.
pub proof fn lemma_pop_ok(net: INet, st: ReadState)
    requires
        state_ok(net, st),
        st.pending.len() > 0,
    ensures
        state_ok(net, ReadState { pending: st.pending.drop_last(), ..st }),
        st.pending.last() < net.nodes@.len(),
{
    assert(st.seen.contains(st.pending[st.pending.len() - 1]));
}

/// Reads the let of each pending tuple node, most recently found first,
/// and places it in `main`, as `lets_v` says.
#[verifier::rlimit(40)]
#[verifier::spinoff_prover]
pub(crate) fn read_lets(
    net: &INet,
    main: Term,
    valid: bool,
    namegen: &mut NameGen,
    dup_scope: &mut HashMap<u32, Vec<u64>>,
    tup_scope: &mut Scope,
    labels_to_tag: &HashMap<u32, Name>,
    fuel: u64,
) -> (r: (Term, bool))
    requires
        net.wf(),
        state_ok(*net, state_of(*old(namegen), *old(dup_scope), *old(tup_scope))),
        no_let_var(main@),
        lets_v(
            *net,
            main@,
            valid,
            state_of(*old(namegen), *old(dup_scope), *old(tup_scope)),
            labels_view(*labels_to_tag),
            fuel as nat,
        ) is Some,
    ensures
        ({
            let out = lets_v(
                *net,
                main@,
                valid,
                state_of(*old(namegen), *old(dup_scope), *old(tup_scope)),
                labels_view(*labels_to_tag),
                fuel as nat,
            ).unwrap();
            &&& r.0@ == out.0
            &&& r.1 == out.1
            &&& state_of(*final(namegen), *final(dup_scope), *final(tup_scope)) == out.2
        }),
        no_let_var(r.0@),
{
    let ghost labels = labels_view(*labels_to_tag);
    let ghost total = lets_v(*net, main@, valid, state_of(*namegen, *dup_scope, *tup_scope), labels, fuel as nat);
    let mut main = main;
    let mut valid = valid;
    loop
        invariant
            net.wf(),
            labels == labels_view(*labels_to_tag),
            state_ok(*net, state_of(*namegen, *dup_scope, *tup_scope)),
            no_let_var(main@),
            lets_v(*net, main@, valid, state_of(*namegen, *dup_scope, *tup_scope), labels, fuel as nat) == total,
            total is Some,
        ensures
            tup_scope.pending().len() == 0,
        decreases work_left(*net, state_of(*namegen, *dup_scope, *tup_scope)),
    {
        let ghost st = state_of(*namegen, *dup_scope, *tup_scope);
        proof {
            lemma_bounded_nodes(st.seen, net.nodes@.len());
        }
        match tup_scope.pop() {
            None => {
                break;
            },
            Some(tup) => {
                let ghost st0 = state_of(*namegen, *dup_scope, *tup_scope);
                let ghost old_main = main;
                proof {
                    lemma_pop_ok(*net, st);
                    lemma_let_v(*net, main@, tup, st0, labels, fuel as nat);
                    lemma_enter_valid(*net, Port(tup, 0));
                }
                let val_port = net.enter_port(Port(tup, 0));
                let (val, val_valid) = reader(net, val_port, namegen, dup_scope, tup_scope, labels_to_tag, fuel);
                let fst = namegen.decl_name(net, Port(tup, 1));
                let snd = namegen.decl_name(net, Port(tup, 2));
                let mut free_vars = index_set_new();
                proof {
                    assert(index_set_items(free_vars).no_duplicates());
                }
                val.free_vars(&mut free_vars);
                proof {
                    assert(Seq::<Seq<char>>::empty().to_set() =~= Set::<Seq<char>>::empty());
                    assert(fv_set(free_vars) =~= free_vars_v(val@));
                    lemma_read_v(*net, val_port, st0, labels, fuel as nat);
                }
                let let_ctx = LetInsertion::Todo(fst, snd, val);
                let (placed, _) = let_ctx.search_and_insert(&mut main, &mut free_vars);
                match placed {
                    LetInsertion::Unplaced(fst, snd, val) => {
                        main = Term::Let { pat: LetPat::Tup(fst, snd), val: Box::new(val), nxt: Box::new(main) };
                    },
                    LetInsertion::Placed => {},
                    LetInsertion::Todo(..) => {
                        proof {
                            assert(false);
                        }
                    },
                }
                valid = valid && val_valid;
                proof {
                    let st1 = state_of(*namegen, *dup_scope, *tup_scope);
                    assert(st1 == let_v(*net, old_main@, tup, st0, labels, fuel as nat).unwrap().2);
                    lemma_bounded_nodes(st1.seen, net.nodes@.len());
                    assert(tick(st0) == tick(st) - 1);
                }
            },
        }
    }
    (main, valid)
}

/// Meeting a superposition at its main port while a duplicator of the same
/// label was last entered at slot `s` (the top of that label's stack), the
/// readback goes on into the superposition's own slot `s`: what it reads
/// there, with `s` taken off the stack, is what it reads for the
/// superposition.
pub proof fn law_sup_follows_dup_slot(
    net: INet,
    p: Port,
    lab: u32,
    st: ReadState,
    labels: Map<u32, Seq<char>>,
    fuel: nat,
)
    requires
        fuel > 0,
        net.kind_at(p.0) == (NodeKind::Dup { lab }),
        p.1 == 0,
        stack_of(st.dups, lab).len() > 0,
        read_v(net, p, st, labels, fuel) is Some,
    ensures
        ({
            let s = stack_of(st.dups, lab).last();
            let st1 = ReadState { dups: st.dups.insert(lab, stack_of(st.dups, lab).drop_last()), ..st };
            let inner = read_v(net, net.spec_enter(Port(p.0, s)), st1, labels, (fuel - 1) as nat);
            let outer = read_v(net, p, st, labels, fuel);
            &&& inner is Some
            &&& outer.unwrap().0 == inner.unwrap().0
            &&& outer.unwrap().1 == inner.unwrap().1
        }),
{
}

/// Entering a duplicator at its slot `k` (1 or 2), the readback reads what
/// its main port leads to, with `k` put on top of its label's stack, so
/// that a superposition of the label met there is taken at its slot `k`.
pub proof fn law_dup_pushes_slot(
    net: INet,
    p: Port,
    lab: u32,
    st: ReadState,
    labels: Map<u32, Seq<char>>,
    fuel: nat,
)
    requires
        fuel > 0,
        net.kind_at(p.0) == (NodeKind::Dup { lab }),
        p.1 != 0,
        read_v(net, p, st, labels, fuel) is Some,
    ensures
        ({
            let st1 = ReadState { dups: st.dups.insert(lab, stack_of(st.dups, lab).push(p.1)), ..st };
            let inner = read_v(net, net.spec_enter(Port(p.0, 0)), st1, labels, (fuel - 1) as nat);
            let outer = read_v(net, p, st, labels, fuel);
            &&& inner is Some
            &&& outer.unwrap().0 == inner.unwrap().0
            &&& outer.unwrap().1 == inner.unwrap().1
            &&& stack_of(st1.dups, lab).last() == p.1
        }),
{
}

/// Reading two ports is reading the first, then the second from the state
/// after the first.
pub proof fn lemma_read2_unfold(net: INet, a: Port, b: Port, st: ReadState, labels: Map<u32, Seq<char>>, f: nat)
    ensures
        read2_v(net, a, b, st, labels, f) == match read_v(net, a, st, labels, f) {
            None => None,
            Some((x, vx, st1)) => match read_v(net, b, st1, labels, f) {
                None => None,
                Some((y, vy, st2)) => Some((x, y, vx && vy, st2)),
            },
        },
{
}

/// The readback reads the two parts of a binary node from its ports in
/// order, the first with the state it comes in with and the second with
/// the state after the first: an application's function from the node's
/// main port and its argument from its first aux port; a tuple's and a
/// superposition's first part from the first aux port and second part from
/// the second; an operation's operands from the main port then the first
/// aux port; and a lambda's body from its second aux port.
pub proof fn law_read_parts_in_order(
    net: INet,
    p: Port,
    st: ReadState,
    labels: Map<u32, Seq<char>>,
    fuel: nat,
)
    requires
        fuel > 0,
        read_v(net, p, st, labels, fuel) is Some,
    ensures
        ({
            let f = (fuel - 1) as nat;
            let out = read_v(net, p, st, labels, fuel).unwrap().0;
            let node = p.0;
            &&& net.kind_at(node) is Con && p.1 == 2 ==> {
                let x = read_v(net, net.spec_enter(Port(node, 0)), st, labels, f);
                &&& x is Some
                &&& out is App
                &&& *out->App_fun == x.unwrap().0
                &&& *out->App_arg == read_v(net, net.spec_enter(Port(node, 1)), x.unwrap().2, labels, f).unwrap().0
            }
            &&& net.kind_at(node) is Con && p.1 == 0 ==> {
                let d = decl_v(net, st, Port(node, 1));
                &&& d is Some
                &&& out is Lam
                &&& out->Lam_nam == d.unwrap().0
                &&& *out->Lam_bod == read_v(net, net.spec_enter(Port(node, 2)), d.unwrap().1, labels, f).unwrap().0
            }
            &&& net.kind_at(node) == NodeKind::Tup && p.1 == 0 ==> {
                let x = read_v(net, net.spec_enter(Port(node, 1)), st, labels, f);
                &&& x is Some
                &&& out is Tup
                &&& *out->Tup_fst == x.unwrap().0
                &&& *out->Tup_snd == read_v(net, net.spec_enter(Port(node, 2)), x.unwrap().2, labels, f).unwrap().0
            }
            &&& net.kind_at(node) is Op2 && p.1 == 2 ==> {
                let x = read_v(net, net.spec_enter(Port(node, 0)), st, labels, f);
                &&& x is Some
                &&& out is Opx
                &&& *out->Opx_fst == x.unwrap().0
                &&& *out->Opx_snd == read_v(net, net.spec_enter(Port(node, 1)), x.unwrap().2, labels, f).unwrap().0
            }
            &&& net.kind_at(node) is Dup && p.1 == 0 && stack_of(st.dups, net.kind_at(node)->Dup_lab).len() == 0 ==> {
                let lab = net.kind_at(node)->Dup_lab;
                let st1 = ReadState { dups: st.dups.insert(lab, stack_of(st.dups, lab)), ..st };
                let x = read_v(net, net.spec_enter(Port(node, 1)), st1, labels, f);
                &&& x is Some
                &&& out is Sup
                &&& *out->Sup_fst == x.unwrap().0
                &&& *out->Sup_snd == read_v(net, net.spec_enter(Port(node, 2)), x.unwrap().2, labels, f).unwrap().0
            }
        }),
{
    let f = (fuel - 1) as nat;
    let node = p.0;
    lemma_read2_unfold(net, net.spec_enter(Port(node, 0)), net.spec_enter(Port(node, 1)), st, labels, f);
    lemma_read2_unfold(net, net.spec_enter(Port(node, 1)), net.spec_enter(Port(node, 2)), st, labels, f);
    if net.kind_at(node) is Dup {
        let lab = net.kind_at(node)->Dup_lab;
        let st1 = ReadState { dups: st.dups.insert(lab, stack_of(st.dups, lab)), ..st };
        lemma_read2_unfold(net, net.spec_enter(Port(node, 1)), net.spec_enter(Port(node, 2)), st1, labels, f);
    }
}

} // verus!
