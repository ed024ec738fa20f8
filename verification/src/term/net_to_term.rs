//! Reading a term back from an interaction net.
use vstd::prelude::*;
use hvmc::run::Val;
use std::collections::{HashMap, HashSet};
use crate::net::{root, root_port, valid_port, INet, NodeId, NodeKind, Port};
use super::fix_names::{binder_names, fix_done, fix_ok, fix_v, law_fix_names_inlines_all, no_gen_ref, law_fix_names_in_order, lemma_fix_no_let_var, names_from, no_let_var};
use super::readback::{dups_view, labels_view, lemma_enter_valid, lemma_lets_invalid, lemma_lets_nlv, lemma_read_v, lets_v, read_lets, read_v, reader, state_of, state_ok, ReadState};
use super::resugar::{book_ok, lemma_resugar_nlv, resugar, resugar_v};
use super::{Term, TermV};
use super::{var_id_to_name, var_name, lemma_var_name_injective, Book, DefId, Name, Op};

verus! {

/// The nodes whose let bodies are still to be read, in the order they were
/// found, each once.
pub struct Scope {
    vec: Vec<NodeId>,
    set: HashSet<NodeId>,
}

impl Scope {
    /// The nodes still to be read, in order.
    pub closed spec fn pending(&self) -> Seq<NodeId> {
        self.vec@
    }

    /// The nodes ever inserted.
    pub closed spec fn seen(&self) -> Set<NodeId> {
        self.set@
    }

    /// An empty scope.
    pub fn new() -> (r: Self)
        ensures
            r.pending() == Seq::<NodeId>::empty(),
            r.seen() == Set::<NodeId>::empty(),
    {
        Scope { vec: Vec::new(), set: HashSet::new() }
    }

    /// Adds a node to read, unless it was added before.
    pub fn insert(&mut self, node: NodeId)
        ensures
            (final(self).pending(), final(self).seen()) == scope_insert_v(
                old(self).pending(),
                old(self).seen(),
                node,
            ),
    {
        if !self.set.contains(&node) {
            self.set.insert(node);
            self.vec.push(node);
        }
    }

    /// Takes the most recently added node still to be read.
    pub fn pop(&mut self) -> (r: Option<NodeId>)
        ensures
            final(self).seen() == old(self).seen(),
            old(self).pending().len() == 0 ==> r is None && final(self).pending() == old(
                self,
            ).pending(),
            old(self).pending().len() > 0 ==> r == Some(old(self).pending().last())
                && final(self).pending() == old(self).pending().drop_last(),
    {
        self.vec.pop()
    }
}

/// The nodes still to be read and the nodes ever added, after adding a
/// node: a node added before is not added again.
pub open spec fn scope_insert_v(pending: Seq<NodeId>, seen: Set<NodeId>, node: NodeId) -> (Seq<NodeId>, Set<NodeId>) {
    if seen.contains(node) {
        (pending, seen)
    } else {
        (pending.push(node), seen.insert(node))
    }
}

/// What every scope keeps: each node is pending at most once, and only a
/// node that was added.
pub open spec fn scope_inv(pending: Seq<NodeId>, seen: Set<NodeId>) -> bool {
    &&& pending.no_duplicates()
    &&& forall|i: int| 0 <= i < pending.len() ==> seen.contains(#[trigger] pending[i])
}

/// Adding and taking nodes keep each node pending at most once; a node, once
/// taken, is never pending again.
pub proof fn law_scope_each_node_once(pending: Seq<NodeId>, seen: Set<NodeId>, node: NodeId)
    requires
        scope_inv(pending, seen),
    ensures
        scope_inv(scope_insert_v(pending, seen, node).0, scope_insert_v(pending, seen, node).1),
        pending.len() > 0 ==> scope_inv(pending.drop_last(), seen),
        pending.len() > 0 ==> scope_insert_v(pending.drop_last(), seen, pending.last()) == (
            pending.drop_last(),
            seen,
        ),
{
    let (p2, s2) = scope_insert_v(pending, seen, node);
    if !seen.contains(node) {
        assert forall|i: int, j: int| 0 <= i < p2.len() && 0 <= j < p2.len() && i != j implies p2[i]
            != p2[j] by {
            if i == pending.len() {
                assert(seen.contains(pending[j]));
            } else if j == pending.len() {
                assert(seen.contains(pending[i]));
            }
        }
        assert forall|i: int| 0 <= i < p2.len() implies s2.contains(#[trigger] p2[i]) by {
            if i < pending.len() {
                assert(seen.contains(pending[i]));
            }
        }
    }
    if pending.len() > 0 {
        assert(seen.contains(pending[pending.len() - 1]));
        let d = pending.drop_last();
        assert forall|i: int| 0 <= i < d.len() implies seen.contains(#[trigger] d[i]) by {
            assert(d[i] == pending[i]);
        }
    }
}

/// The key under which a port is kept: its node and slot, as one number.
pub open spec fn port_key(p: Port) -> u128 {
    (p.0 as u128 * 0x1_0000_0000_0000_0000u128 + p.1 as u128) as u128
}

fn key_of(p: Port) -> (r: u128)
    ensures
        r == port_key(p),
{
    p.0 as u128 * 0x1_0000_0000_0000_0000u128 + p.1 as u128
}

/// Different ports have different keys.
proof fn lemma_port_key_injective(a: Port, b: Port)
    requires
        a != b,
    ensures
        port_key(a) != port_key(b),
{
    assert(a.1 < 0x1_0000_0000_0000_0000u128 && b.1 < 0x1_0000_0000_0000_0000u128);
    if a.0 == b.0 {
        assert(a.1 != b.1);
    } else if a.0 < b.0 {
        assert(a.0 as u128 * 0x1_0000_0000_0000_0000u128 + 0x1_0000_0000_0000_0000u128 <= b.0 as u128
            * 0x1_0000_0000_0000_0000u128);
    } else {
        assert(b.0 as u128 * 0x1_0000_0000_0000_0000u128 + 0x1_0000_0000_0000_0000u128 <= a.0 as u128
            * 0x1_0000_0000_0000_0000u128);
    }
}

/// Gives variables names: one per port, and fresh ones on demand.
pub struct NameGen {
    var_port_to_id: HashMap<u128, Val>,
    id_counter: Val,
}

impl NameGen {
    /// The id given to each port key so far.
    pub closed spec fn ids(&self) -> Map<u128, Val> {
        self.var_port_to_id@
    }

    /// The next id to give.
    pub closed spec fn counter(&self) -> Val {
        self.id_counter
    }

    /// The ids given so far are distinct and below the counter; every
    /// name generator keeps this.
    #[verifier::type_invariant]
    pub open spec fn wf(&self) -> bool {
        &&& forall|k: u128| #[trigger] self.ids().contains_key(k) ==> self.ids()[k] < self.counter()
        &&& forall|k1: u128, k2: u128|
            #[trigger] self.ids().contains_key(k1) && #[trigger] self.ids().contains_key(k2) && k1
                != k2 ==> self.ids()[k1] != self.ids()[k2]
    }

    /// No names given yet.
    pub fn new() -> (r: Self)
        ensures
            r.wf(),
            r.ids() == Map::<u128, Val>::empty(),
            r.counter() == 0,
    {
        NameGen { var_port_to_id: HashMap::new(), id_counter: 0 }
    }

    /// The id counter.
    pub fn get_counter(&self) -> (r: Val)
        ensures
            r == self.counter(),
    {
        self.id_counter
    }

    /// Given a port, returns its name, or assigns one if it wasn't named yet.
    pub fn var_name(&mut self, var_port: Port) -> (r: Name)
        requires
            !old(self).ids().contains_key(port_key(var_port)) ==> old(self).counter() < Val::MAX,
        ensures
            old(self).ids().contains_key(port_key(var_port)) ==> {
                &&& r@ == var_name(old(self).ids()[port_key(var_port)] as nat)
                &&& final(self).ids() == old(self).ids()
                &&& final(self).counter() == old(self).counter()
            },
            !old(self).ids().contains_key(port_key(var_port)) ==> {
                &&& r@ == var_name(old(self).counter() as nat)
                &&& final(self).ids() == old(self).ids().insert(
                    port_key(var_port),
                    old(self).counter(),
                )
                &&& final(self).counter() == old(self).counter() + 1
                &&& forall|k: u128| #[trigger] old(self).ids().contains_key(k) ==> r@ != var_name(
                    old(self).ids()[k] as nat,
                )
            },
            final(self).wf(),
    {
        proof {
            use_type_invariant(&*self);
        }
        let ghost old_ids = self.ids();
        let ghost c0 = self.counter();
        let key = key_of(var_port);
        let id = match self.var_port_to_id.get(&key) {
            Some(id) => *id,
            None => {
                let id = self.id_counter;
                self.id_counter = self.id_counter + 1;
                let mut ids = HashMap::new();
                std::mem::swap(&mut ids, &mut self.var_port_to_id);
                ids.insert(key, id);
                self.var_port_to_id = ids;
                id
            },
        };
        proof {
            use_type_invariant(&*self);
            assert forall|k: u128| #[trigger] old_ids.contains_key(k) && !old_ids.contains_key(port_key(var_port))
                implies var_name(c0 as nat) != var_name(old_ids[k] as nat) by {
                lemma_var_name_injective(c0 as nat, old_ids[k] as nat);
            }
        }
        var_id_to_name(id)
    }

    /// The name of the variable bound at a port, or none where the port is
    /// linked to an eraser (the variable is unused).
    pub fn decl_name(&mut self, net: &INet, var_port: Port) -> (r: Option<Name>)
        requires
            net.wf(),
            valid_port(net, var_port),
            net.kind_at(net.spec_enter(var_port).0) != NodeKind::Era && !old(self).ids().contains_key(
                port_key(var_port),
            ) ==> old(self).counter() < Val::MAX,
        ensures
            net.kind_at(net.spec_enter(var_port).0) == NodeKind::Era ==> r is None && final(self).ids()
                == old(self).ids() && final(self).counter() == old(self).counter(),
            net.kind_at(net.spec_enter(var_port).0) != NodeKind::Era ==> r is Some && {
                &&& old(self).ids().contains_key(port_key(var_port)) ==> {
                    &&& r->0@ == var_name(old(self).ids()[port_key(var_port)] as nat)
                    &&& final(self).ids() == old(self).ids()
                    &&& final(self).counter() == old(self).counter()
                }
                &&& !old(self).ids().contains_key(port_key(var_port)) ==> {
                    &&& r->0@ == var_name(old(self).counter() as nat)
                    &&& final(self).ids() == old(self).ids().insert(
                        port_key(var_port),
                        old(self).counter(),
                    )
                    &&& final(self).counter() == old(self).counter() + 1
                    &&& forall|k: u128| #[trigger] old(self).ids().contains_key(k) ==> r->0@ != var_name(
                        old(self).ids()[k] as nat,
                    )
                }
            },
            final(self).wf(),
    {
        proof {
            use_type_invariant(&*self);
        }
        let var_use = net.enter_port(var_port);
        assert(var_use.0 < net.nodes@.len()) by {
            assert(valid_port(net, net.nodes@[var_port.0 as int].port_at(var_port.1)));
        }
        let var_kind = net.node(var_use.node()).kind;
        if let NodeKind::Era = var_kind {
            None
        } else {
            Some(self.var_name(var_port))
        }
    }

    /// A name that no port has been given.
    pub fn new_unique(&mut self) -> (r: Name)
        requires
            old(self).counter() < Val::MAX,
        ensures
            r@ == var_name(old(self).counter() as nat),
            final(self).ids() == old(self).ids(),
            final(self).counter() == old(self).counter() + 1,
            forall|k: u128| #[trigger] old(self).ids().contains_key(k) ==> r@ != var_name(
                old(self).ids()[k] as nat,
            ),
            final(self).wf(),
    {
        proof {
            use_type_invariant(&*self);
        }
        let ghost old_ids = self.ids();
        let id = self.id_counter;
        self.id_counter = self.id_counter + 1;
        proof {
            use_type_invariant(&*self);
            assert forall|k: u128| #[trigger] old_ids.contains_key(k) implies var_name(id as nat) != var_name(
                old_ids[k] as nat,
            ) by {
                lemma_var_name_injective(id as nat, old_ids[k] as nat);
            }
        }
        var_id_to_name(id)
    }
}

/// Different ports are given different names, and a name made by
/// `new_unique` is none of the names given to ports.
pub proof fn law_names_distinct(g: NameGen, p: Port, q: Port)
    requires
        g.wf(),
        g.ids().contains_key(port_key(p)),
        g.ids().contains_key(port_key(q)),
    ensures
        p != q ==> var_name(g.ids()[port_key(p)] as nat) != var_name(g.ids()[port_key(q)] as nat),
        var_name(g.ids()[port_key(p)] as nat) != var_name(g.counter() as nat),
{
    if p != q {
        lemma_port_key_injective(p, q);
        lemma_var_name_injective(g.ids()[port_key(p)] as nat, g.ids()[port_key(q)] as nat);
    }
    lemma_var_name_injective(g.ids()[port_key(p)] as nat, g.counter() as nat);
}

/// The numeric operation of a runtime operation label.
pub open spec fn op_of_label(value: Val) -> Option<Op> {
    if value == 0x0 {
        Some(Op::ADD)
    } else if value == 0x1 {
        Some(Op::SUB)
    } else if value == 0x2 {
        Some(Op::MUL)
    } else if value == 0x3 {
        Some(Op::DIV)
    } else if value == 0x4 {
        Some(Op::MOD)
    } else if value == 0x5 {
        Some(Op::EQ)
    } else if value == 0x6 {
        Some(Op::NE)
    } else if value == 0x7 {
        Some(Op::LT)
    } else if value == 0x8 {
        Some(Op::GT)
    } else if value == 0x9 {
        Some(Op::AND)
    } else if value == 0xa {
        Some(Op::OR)
    } else if value == 0xb {
        Some(Op::XOR)
    } else if value == 0xc {
        Some(Op::NOT)
    } else if value == 0xd {
        Some(Op::LSH)
    } else if value == 0xe {
        Some(Op::RSH)
    } else {
        None
    }
}

impl Op {
    /// The numeric operation of a runtime operation label.
    pub fn from_hvmc_label(value: Val) -> (r: Option<Op>)
        ensures
            r == op_of_label(value),
    {
        match value {
            0x0 => Some(Op::ADD),
            0x1 => Some(Op::SUB),
            0x2 => Some(Op::MUL),
            0x3 => Some(Op::DIV),
            0x4 => Some(Op::MOD),
            0x5 => Some(Op::EQ),
            0x6 => Some(Op::NE),
            0x7 => Some(Op::LT),
            0x8 => Some(Op::GT),
            0x9 => Some(Op::AND),
            0xa => Some(Op::OR),
            0xb => Some(Op::XOR),
            0xc => Some(Op::NOT),
            0xd => Some(Op::LSH),
            0xe => Some(Op::RSH),
            _ => None,
        }
    }
}

/// `str::contains` for a character.
#[verifier::external_body]
fn str_contains_char(s: &str, c: char) -> (r: bool)
    ensures
        r == s@.contains(c),
{
    s.contains(c)
}

/// Whether a definition was generated by the compiler: its name holds `$`.
pub open spec fn generated(names: Map<Val, Seq<char>>, id: Val) -> bool {
    names.contains_key(id) && names[id].contains('$')
}

impl Book {
    /// Whether a definition was generated by the compiler: it has a name,
    /// and the name holds `$`.
    pub fn is_generated_def(&self, def_id: DefId) -> (r: bool)
        ensures
            r == generated(self.def_names@.ids, def_id.0),
    {
        match self.def_names.name(&def_id) {
            Some(n) => str_contains_char(n.0.as_str(), '$'),
            None => false,
        }
    }
}

/// The readback state a readback starts in: no names given, no duplicator
/// entered, no tuple node met.
pub open spec fn start_state() -> ReadState {
    ReadState {
        ids: Map::empty(),
        counter: 0,
        dups: Map::empty(),
        pending: Seq::empty(),
        seen: Set::empty(),
    }
}

/// The term read back from a net, and whether it is a valid readback: the
/// term hanging from the root, with the lets of its tuple nodes placed;
/// where it is valid, its datatype encodings are resugared, and where that
/// succeeds its binders are renamed in order from the first name on, with
/// generated definitions inlined. `None` where the readback fails: as
/// `read_v`, `lets_v` or `resugar_v`, where the renaming runs out of ids,
/// where it meets a generated definition that cannot be inlined, or where
/// inlining would nest deeper than the book has definitions (there some
/// generated definition is met again inside itself, and inlining would
/// not end).
pub open spec fn readback_v(net: INet, book: Book, labels: Map<u32, Seq<char>>) -> Option<(TermV, bool)> {
    let fuel = u64::MAX as nat;
    match read_v(net, net.spec_enter(root()), start_state(), labels, fuel) {
        None => None,
        Some((main, valid, st1)) => match lets_v(net, main, valid, st1, labels, fuel) {
            None => None,
            Some((m2, v2, st2)) => {
                let rs = if v2 {
                    resugar_v(book, m2, st2.counter, fuel)
                } else {
                    Some((m2, st2.counter, false))
                };
                match rs {
                    None => None,
                    Some((m3, _, v3)) => if !v3 {
                        Some((m3, false))
                    } else {
                        let (m4, c4) = fix_v(m3, 0, book.def_names@.ids, book.defs@, book.defs@.len());
                        if c4 > Val::MAX || !fix_ok(m3, 0, book.def_names@.ids, book.defs@, book.defs@.len())
                            || !fix_done(m3, 0, book.def_names@.ids, book.defs@, book.defs@.len()) {
                            None
                        } else {
                            Some((m4, true))
                        }
                    },
                }
            },
        },
    }
}

/// Converts an interaction net to a lambda calculus term, resolving
/// duplicators and superpositions where possible; also returns whether the
/// readback is valid. The contract: `readback_v`.
pub fn net_to_term_non_linear(net: &INet, book: &Book, labels_to_tag: &HashMap<u32, Name>) -> (r: (Term, bool))
    requires
        net.wf(),
        net.nodes@.len() > 0,
        book_ok(*book),
        readback_v(*net, *book, labels_view(*labels_to_tag)) is Some,
    ensures
        (r.0@, r.1) == readback_v(*net, *book, labels_view(*labels_to_tag)).unwrap(),
{
    let mut namegen = NameGen::new();
    let mut dup_scope: HashMap<u32, Vec<u64>> = HashMap::new();
    let mut tup_scope = Scope::new();
    let fuel = u64::MAX;
    proof {
        assert(dups_view(dup_scope) =~= Map::<u32, Seq<u64>>::empty());
        assert(state_of(namegen, dup_scope, tup_scope) == start_state());
        assert(valid_port(net, root()));
        lemma_enter_valid(*net, root());
    }
    let root = net.enter_port(root_port());
    let (main, valid) = reader(net, root, &mut namegen, &mut dup_scope, &mut tup_scope, labels_to_tag, fuel);
    proof {
        lemma_read_v(*net, root, start_state(), labels_view(*labels_to_tag), fuel as nat);
    }
    let (mut main, mut valid) = read_lets(
        net,
        main,
        valid,
        &mut namegen,
        &mut dup_scope,
        &mut tup_scope,
        labels_to_tag,
        fuel,
    );
    if valid {
        let mut counter = namegen.get_counter();
        proof {
            lemma_resugar_nlv(*book, main@, counter as nat, fuel as nat);
        }
        let (m, ok) = resugar(main, &mut counter, book, fuel);
        main = m;
        valid = ok;
    }
    if valid {
        let mut id_counter: Val = 0;
        main.fix_names(&mut id_counter, book);
    }
    (main, valid)
}

/// A readback holds no single-variable let, and a valid one names its
/// binders, in the order the renaming visits them, after the ids from the
/// first on, one each: no two binders share a name.
pub proof fn law_readback_names_in_order(net: INet, book: Book, labels: Map<u32, Seq<char>>)
    requires
        net.wf(),
        net.nodes@.len() > 0,
        book_ok(book),
        readback_v(net, book, labels) is Some,
    ensures
        no_let_var(readback_v(net, book, labels).unwrap().0),
        readback_v(net, book, labels).unwrap().1 ==> {
            let t = readback_v(net, book, labels).unwrap().0;
            binder_names(t) == names_from(0, binder_names(t).len())
        },
{
    let fuel = u64::MAX as nat;
    assert(valid_port(&net, root()));
    lemma_enter_valid(net, root());
    let st0 = start_state();
    assert(state_ok(net, st0));
    lemma_read_v(net, net.spec_enter(root()), st0, labels, fuel);
    let (main, valid, st1) = read_v(net, net.spec_enter(root()), st0, labels, fuel).unwrap();
    lemma_lets_nlv(net, main, valid, st1, labels, fuel);
    let (m2, v2, st2) = lets_v(net, main, valid, st1, labels, fuel).unwrap();
    if v2 {
        lemma_resugar_nlv(book, m2, st2.counter, fuel);
    }
    let rs = if v2 {
        resugar_v(book, m2, st2.counter, fuel)
    } else {
        Some((m2, st2.counter, false))
    };
    let (m3, _c3, v3) = rs.unwrap();
    if v3 {
        let names = book.def_names@.ids;
        let defs = book.defs@;
        lemma_fix_no_let_var(m3, 0, names, defs, defs.len());
        law_fix_names_in_order(m3, 0, names, defs, defs.len());
        let (m4, c4) = fix_v(m3, 0, names, defs, defs.len());
        assert(binder_names(m4).len() == c4);
    }
}

/// An invalid part makes the whole readback invalid: where the term read
/// from the root, or the value of a let it collects, is invalid, so is the
/// readback.
pub proof fn law_readback_invalid(net: INet, book: Book, labels: Map<u32, Seq<char>>)
    requires
        net.wf(),
        net.nodes@.len() > 0,
        readback_v(net, book, labels) is Some,
    ensures
        ({
            let fuel = u64::MAX as nat;
            let (main, valid, st1) = read_v(net, net.spec_enter(root()), start_state(), labels, fuel).unwrap();
            let lets_valid = lets_v(net, main, valid, st1, labels, fuel).unwrap().1;
            &&& !valid ==> !lets_valid
            &&& !lets_valid ==> !readback_v(net, book, labels).unwrap().1
        }),
{
    let fuel = u64::MAX as nat;
    assert(valid_port(&net, root()));
    lemma_enter_valid(net, root());
    let st0 = start_state();
    assert(state_ok(net, st0));
    lemma_read_v(net, net.spec_enter(root()), st0, labels, fuel);
    let (main, valid, st1) = read_v(net, net.spec_enter(root()), st0, labels, fuel).unwrap();
    lemma_lets_invalid(net, main, valid, st1, labels, fuel);
}

/// A net whose root holds an eraser reads back as an eraser, valid where
/// the root meets its main port; one whose root holds a number reads back
/// as that number, valid. The book plays no part.
pub proof fn law_readback_leaf(net: INet, book: Book, labels: Map<u32, Seq<char>>)
    requires
        net.wf(),
        net.nodes@.len() > 0,
    ensures
        ({
            let p = net.spec_enter(root());
            &&& net.kind_at(p.0) == NodeKind::Era ==> readback_v(net, book, labels) == Some(
                (TermV::Era, p.1 == 0),
            )
            &&& net.kind_at(p.0) matches NodeKind::Num { val } ==> readback_v(net, book, labels) == Some(
                (TermV::Num { val }, true),
            )
        }),
{
    let fuel = u64::MAX as nat;
    let p = net.spec_enter(root());
    let st0 = start_state();
    assert(state_ok(net, st0));
    assert(lets_v(net, TermV::Era, p.1 == 0, st0, labels, fuel) == Some((TermV::Era, p.1 == 0, st0)));
    if let NodeKind::Num { val } = net.kind_at(p.0) {
        assert(lets_v(net, TermV::Num { val }, true, st0, labels, fuel) == Some((TermV::Num { val }, true, st0)));
    }
}

/// A valid readback has every generated definition inlined: it refers to
/// none of them.
pub proof fn law_readback_inlines_all(net: INet, book: Book, labels: Map<u32, Seq<char>>)
    requires
        net.wf(),
        net.nodes@.len() > 0,
        book_ok(book),
        readback_v(net, book, labels) is Some,
        readback_v(net, book, labels).unwrap().1,
    ensures
        no_gen_ref(readback_v(net, book, labels).unwrap().0, book.def_names@.ids),
{
    let fuel = u64::MAX as nat;
    assert(valid_port(&net, root()));
    lemma_enter_valid(net, root());
    let st0 = start_state();
    assert(state_ok(net, st0));
    lemma_read_v(net, net.spec_enter(root()), st0, labels, fuel);
    let (main, valid, st1) = read_v(net, net.spec_enter(root()), st0, labels, fuel).unwrap();
    lemma_lets_nlv(net, main, valid, st1, labels, fuel);
    let (m2, v2, st2) = lets_v(net, main, valid, st1, labels, fuel).unwrap();
    if v2 {
        lemma_resugar_nlv(book, m2, st2.counter, fuel);
    }
    let rs = if v2 {
        resugar_v(book, m2, st2.counter, fuel)
    } else {
        Some((m2, st2.counter, false))
    };
    let (m3, _c3, v3) = rs.unwrap();
    let names = book.def_names@.ids;
    let defs = book.defs@;
    law_fix_names_inlines_all(m3, 0, names, defs, defs.len());
}

} // verus!
