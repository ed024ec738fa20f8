//! The term language: names, terms, patterns, definitions and books,
//! with their views and the laws that relate their operations.
use vstd::prelude::*;
use hvmc::run::Val;
use indexmap::IndexMap;
use std::collections::HashMap;

pub mod alpha;
pub mod check;
pub mod construct;
pub mod display;
pub mod fix_names;
pub mod free_vars;
pub mod let_insertion;
pub mod net_to_term;
pub mod parser;
pub mod readback;
pub mod renaming;
pub mod resugar;
pub mod subst;
pub mod view;
pub use view::{lemma_arms_view, lemma_pats_view, clone_opt_name, arms_view, opt_name, pat_view, pats_view, term_view, LetPatV, MatchNumV, PatV, TermV};

verus! {

/// A variable, definition or constructor name.
#[derive(Debug)]
pub struct Name(pub String);

impl View for Name {
    type V = Seq<char>;

    open spec fn view(&self) -> Seq<char> {
        self.0@
    }
}

impl Name {
    /// A name holding the given text.
    pub fn new(value: &str) -> (r: Name)
        ensures
            r@ == value@,
    {
        Name(value.to_owned())
    }

    /// Whether two names hold the same text.
    pub fn eq_name(&self, other: &Name) -> (r: bool)
        ensures
            r == (self@ == other@),
    {
        self.0 == other.0
    }

    /// A copy of this name.
    pub fn clone_name(&self) -> (r: Name)
        ensures
            r == *self,
            r@ == self@,
    {
        Name(self.0.clone())
    }
}

/// The identifier of a definition.
#[derive(Copy, Clone, Debug, PartialEq, Eq, Structural)]
pub struct DefId(pub Val);

impl DefId {
    /// The identifier as the runtime stores it: shifted by one, since the
    /// runtime cannot name the value 0.
    pub fn to_internal(self) -> (r: Val)
        requires
            self.0 < Val::MAX,
        ensures
            r == self.0 + 1,
    {
        self.0 + 1
    }

    /// The identifier for a value that the runtime stores.
    pub fn from_internal(val: Val) -> (r: Self)
        requires
            val >= 1,
        ensures
            r.0 == val - 1,
    {
        DefId(val - 1)
    }
}

/// The lowercase letter for a digit below 26.
pub open spec fn letter(d: nat) -> char {
    ((d % 26) as u8 + 97u8) as char
}

/// The name of the variable with the given id: its base-26 digits, least
/// significant first, written as the letters `a` to `z`.
pub open spec fn var_name(id: nat) -> Seq<char>
    decreases id,
{
    if id / 26 == 0 {
        seq![letter(id)]
    } else {
        seq![letter(id)] + var_name(id / 26)
    }
}

/// Appends a character to a string.
#[verifier::external_body]
pub(crate) fn push_char(s: &mut String, c: char)
    ensures
        final(s)@ == old(s)@.push(c),
{
    s.push(c);
}

/// The name of the variable with the given id.
pub fn var_id_to_name(var_id: Val) -> (r: Name)
    ensures
        r@ == var_name(var_id as nat),
{
    let mut var_id = var_id;
    let ghost orig = var_id as nat;
    let mut name = String::new();
    loop
        invariant_except_break
            name@ + var_name(var_id as nat) == var_name(orig),
        ensures
            name@ == var_name(orig),
        decreases var_id,
    {
        let c = ((var_id % 26) as u8 + 97u8) as char;
        push_char(&mut name, c);
        proof {
            assert(c == letter(var_id as nat));
        }
        let ghost before = var_id as nat;
        let ghost prev = name@.drop_last();
        assert(name@ == prev.push(letter(before)));
        var_id = var_id / 26;
        if var_id == 0 {
            assert(var_name(before) == seq![letter(before)]);
            assert(prev + var_name(before) == prev.push(letter(before)));
            break;
        }
        assert(prev + (seq![letter(before)] + var_name(var_id as nat)) == name@ + var_name(var_id as nat));
        assert(var_name(before) == seq![letter(before)] + var_name(var_id as nat));
        assert(name@ + var_name(var_id as nat) == var_name(orig));
    }
    Name(name)
}

/// Different variable ids give different names.
pub proof fn lemma_var_name_injective(a: nat, b: nat)
    requires
        a != b,
    ensures
        var_name(a) != var_name(b),
    decreases a,
{
    if var_name(a) == var_name(b) {
        assert(var_name(a)[0] == letter(a));
        assert(var_name(b)[0] == letter(b));
        assert(a % 26 == b % 26);
        if a / 26 == 0 {
            if b / 26 != 0 {
                assert(var_name(b).len() > 1);
            }
            assert(false);
        } else {
            if b / 26 == 0 {
                assert(var_name(a).len() > 1);
                assert(false);
            } else {
                assert(var_name(a).drop_first() == var_name(a / 26));
                assert(var_name(b).drop_first() == var_name(b / 26));
                lemma_var_name_injective(a / 26, b / 26);
            }
        }
    }
}

/// The digit a letter stands for: the one below 26 whose letter it is.
pub open spec fn digit_of(c: char) -> nat {
    choose|d: nat| d < 26 && letter(d) == c
}

/// The value of a name read as base-26 digits, least significant first,
/// each letter `a` to `z` standing for 0 to 25.
pub open spec fn name_value(s: Seq<char>) -> nat
    decreases s.len(),
{
    if s.len() == 0 {
        0
    } else {
        digit_of(s[0]) + 26 * name_value(s.drop_first())
    }
}

/// The letter of a digit stands for that digit.
pub proof fn lemma_digit_of_letter(id: nat)
    ensures
        digit_of(letter(id)) == id % 26,
{
    let d = id % 26;
    assert(d < 26 && letter(d) == letter(id));
    let e = digit_of(letter(id));
    assert(e < 26 && letter(e) == letter(id));
    assert(e % 26 == id % 26);
}

/// The name of a variable is its id written in base 26, least significant
/// digit first, in the letters `a` to `z`, with no trailing zero digit `a`
/// beyond the first.
pub proof fn law_var_name_digits(id: nat)
    ensures
        name_value(var_name(id)) == id,
        var_name(id).len() >= 1,
        forall|i: int| 0 <= i < var_name(id).len() ==> exists|k: nat| k < 26 && #[trigger] var_name(id)[i] == letter(k),
        var_name(id).len() > 1 ==> var_name(id).last() != letter(0),
    decreases id,
{
    lemma_digit_of_letter(id);
    assert(letter(id) == letter(id % 26));
    assert(var_name(id)[0] == letter(id));
    if id / 26 == 0 {
        assert(var_name(id).drop_first() =~= Seq::<char>::empty());
        assert(name_value(var_name(id)) == digit_of(letter(id)) + 26 * name_value(Seq::<char>::empty()));
    } else {
        law_var_name_digits(id / 26);
        let rest = var_name(id / 26);
        assert(var_name(id).drop_first() =~= rest);
        assert(name_value(var_name(id)) == digit_of(letter(id)) + 26 * name_value(rest));
        assert(id % 26 + 26 * (id / 26) == id);
        assert(var_name(id).last() == rest.last());
        if rest.len() == 1 {
            assert(rest[0] == letter(id / 26));
            if (id / 26) / 26 != 0 {
                law_var_name_digits((id / 26) / 26);
                assert(rest.len() == 1 + var_name((id / 26) / 26).len());
            }
            assert(id / 26 < 26);
            if letter(id / 26) == letter(0) {
                lemma_digit_of_letter(id / 26);
                lemma_digit_of_letter(0);
                assert(false);
            }
        }
        assert forall|i: int| 0 <= i < var_name(id).len() implies exists|k: nat| k < 26 && #[trigger] var_name(id)[i] == letter(k) by {
            if i > 0 {
                assert(var_name(id)[i] == rest[i - 1]);
            } else {
                assert(var_name(id)[0] == letter(id % 26));
            }
        }
    }
}

/// A pattern matching function definition.
#[derive(Debug)]
pub struct Definition {
    pub def_id: DefId,
    pub rules: Vec<Rule>,
}

/// A pattern matching rule of a definition.
#[derive(Debug)]
pub struct Rule {
    pub pats: Vec<RulePat>,
    pub body: Term,
}

#[derive(Debug)]
pub enum MatchNum {
    Zero,
    Succ(Option<Name>),
}

#[derive(Debug)]
pub enum RulePat {
    Var(Name),
    Ctr(Name, Vec<RulePat>),
    Num(MatchNum),
}

#[derive(Debug)]
#[allow(inconsistent_fields)]
pub enum Term {
    Lam { tag: Option<Name>, nam: Option<Name>, bod: Box<Term> },
    Var { nam: Name },
    /// Like a scopeless lambda, where the variable can occur outside the body
    Chn { nam: Name, bod: Box<Term> },
    /// The use of a Channel variable.
    Lnk { nam: Name },
    Let { pat: LetPat, val: Box<Term>, nxt: Box<Term> },
    App { tag: Option<Name>, fun: Box<Term>, arg: Box<Term> },
    Tup { fst: Box<Term>, snd: Box<Term> },
    Dup { tag: Option<Name>, fst: Option<Name>, snd: Option<Name>, val: Box<Term>, nxt: Box<Term> },
    Sup { tag: Name, fst: Box<Term>, snd: Box<Term> },
    Num { val: u32 },
    /// A numeric operation between built-in numbers.
    Opx { op: Op, fst: Box<Term>, snd: Box<Term> },
    Match { scrutinee: Box<Term>, arms: Vec<(RulePat, Term)> },
    Ref { def_id: DefId },
    Era,
}

#[derive(Debug)]
pub enum LetPat {
    Var(Name),
    Tup(Option<Name>, Option<Name>),
}

#[derive(Clone, Copy, Debug, PartialEq, Eq, Structural)]
pub enum Op {
    ADD,
    SUB,
    MUL,
    DIV,
    MOD,
    EQ,
    NE,
    LT,
    GT,
    AND,
    OR,
    XOR,
    NOT,
    LSH,
    RSH,
}

/// A user defined datatype: its constructors, in order, each with the names
/// of its fields.
pub struct Adt {
    pub ctrs: IndexMap<String, Vec<String>>,
}

/// The abstract state of a [`DefNames`]: the name of each definition id, the
/// id of each name, and the next id to hand out.
pub struct DefNamesView {
    pub ids: Map<Val, Seq<char>>,
    pub names: Map<Seq<char>, Val>,
    pub count: Val,
}

impl DefNamesView {
    /// The state after `insert(name)`: a fresh id, the current count, maps
    /// to the name, and the name maps to it.
    pub open spec fn insert_name(self, name: Seq<char>) -> DefNamesView {
        DefNamesView {
            ids: self.ids.insert(self.count, name),
            names: self.names.insert(name, self.count),
            count: (self.count + 1) as Val,
        }
    }

    /// The state after `remove(id)`: the id is unmapped, and, where it had a
    /// name, so is that name.
    pub open spec fn remove_id(self, id: Val) -> DefNamesView {
        DefNamesView {
            ids: self.ids.remove(id),
            names: if self.ids.contains_key(id) {
                self.names.remove(self.ids[id])
            } else {
                self.names
            },
            count: self.count,
        }
    }

    /// The invariant that every state reachable from `new` keeps: ids below
    /// the count, and each name's id mapped back to that name.
    pub open spec fn consistent(self) -> bool {
        &&& forall|id: Val| #[trigger] self.ids.contains_key(id) ==> id < self.count
        &&& forall|n: Seq<char>| #[trigger] self.names.contains_key(n) ==> {
            &&& self.ids.contains_key(self.names[n])
            &&& self.ids[self.names[n]] == n
        }
    }
}

pub struct DefNames {
    id_to_name: HashMap<Val, Name>,
    name_to_id: Vec<(Name, DefId)>,
    id_count: DefId,
}

/// The entry of `v` whose name is `k`, if any.
pub open spec fn name_entry_index(v: Seq<(Name, DefId)>, k: Seq<char>) -> int {
    choose|i: int| 0 <= i < v.len() && (#[trigger] v[i]).0@ == k
}

pub open spec fn names_of(v: Seq<(Name, DefId)>) -> Map<Seq<char>, Val> {
    Map::new(
        |k: Seq<char>| exists|i: int| 0 <= i < v.len() && (#[trigger] v[i]).0@ == k,
        |k: Seq<char>| v[name_entry_index(v, k)].1.0,
    )
}

impl View for DefNames {
    type V = DefNamesView;

    closed spec fn view(&self) -> DefNamesView {
        DefNamesView {
            ids: self.id_to_name@.map_values(|n: Name| n@),
            names: names_of(self.name_to_id@),
            count: self.id_count.0,
        }
    }
}

impl DefNames {
    /// The representation invariant, which `new` establishes and every
    /// update keeps.
    pub closed spec fn wf(self) -> bool {
        &&& forall|i: int, j: int|
            0 <= i < j < self.name_to_id@.len() ==> (#[trigger] self.name_to_id@[i]).0@ != (
            #[trigger] self.name_to_id@[j]).0@
        &&& self@.consistent()
    }

    pub const ENTRY_POINT: &'static str = "main";

    pub const HVM1_ENTRY_POINT: &'static str = "Main";

    /// No definitions, and the first id to hand out is 0.
    pub fn new() -> (r: Self)
        ensures
            r.wf(),
            r@.ids == Map::<Val, Seq<char>>::empty(),
            r@.names == Map::<Seq<char>, Val>::empty(),
            r@.count == 0,
    {
        let r = DefNames { id_to_name: HashMap::new(), name_to_id: Vec::new(), id_count: DefId(0) };
        assert(r.id_to_name@.map_values(|n: Name| n@) =~= Map::<Val, Seq<char>>::empty());
        assert(names_of(r.name_to_id@) =~= Map::<Seq<char>, Val>::empty());
        r
    }

    /// The name of a definition id.
    pub fn name(&self, def_id: &DefId) -> (r: Option<&Name>)
        ensures
            match r {
                Some(n) => self@.ids.contains_key(def_id.0) && n@ == self@.ids[def_id.0],
                None => !self@.ids.contains_key(def_id.0),
            },
    {
        self.id_to_name.get(&def_id.0)
    }

    /// The index in `name_to_id` of the entry for a name.
    fn find_name(&self, name: &Name) -> (r: Option<usize>)
        ensures
            match r {
                Some(i) => i < self.name_to_id@.len() && self.name_to_id@[i as int].0@ == name@,
                None => forall|i: int|
                    0 <= i < self.name_to_id@.len() ==> (#[trigger] self.name_to_id@[i]).0@
                        != name@,
            },
    {
        let mut i: usize = 0;
        while i < self.name_to_id.len()
            invariant
                i <= self.name_to_id@.len(),
                forall|j: int| 0 <= j < i ==> (#[trigger] self.name_to_id@[j]).0@ != name@,
            decreases self.name_to_id@.len() - i,
        {
            if self.name_to_id[i].0.eq_name(name) {
                return Some(i);
            }
            i = i + 1;
        }
        None
    }

    /// The id of a definition name.
    pub fn def_id(&self, name: &Name) -> (r: Option<DefId>)
        requires
            self.wf(),
        ensures
            match r {
                Some(id) => self@.names.contains_key(name@) && id.0 == self@.names[name@],
                None => !self@.names.contains_key(name@),
            },
    {
        match self.find_name(name) {
            Some(i) => {
                proof {
                    let v = self.name_to_id@;
                    assert(v[i as int].0@ == name@);
                    let j = name_entry_index(v, name@);
                    assert(0 <= j < v.len() && v[j].0@ == name@);
                    if j != i {
                        if j < i {
                            assert(v[j].0@ != v[i as int].0@);
                        } else {
                            assert(v[i as int].0@ != v[j].0@);
                        }
                    }
                }
                Some(self.name_to_id[i].1)
            },
            None => None,
        }
    }

    /// Whether a name is defined.
    pub fn contains_name(&self, name: &Name) -> (r: bool)
        ensures
            r == self@.names.contains_key(name@),
    {
        self.find_name(name).is_some()
    }

    /// Whether a definition id is in use.
    pub fn contains_def_id(&self, def_id: &DefId) -> (r: bool)
        ensures
            r == self@.ids.contains_key(def_id.0),
    {
        self.id_to_name.contains_key(&def_id.0)
    }
}

/// No two entries of `v` hold the same name.
pub open spec fn unique_names(v: Seq<(Name, DefId)>) -> bool {
    forall|i: int, j: int| 0 <= i < j < v.len() ==> (#[trigger] v[i]).0@ != (#[trigger] v[j]).0@
}

proof fn lemma_names_of_at(v: Seq<(Name, DefId)>, j: int)
    requires
        unique_names(v),
        0 <= j < v.len(),
    ensures
        names_of(v).contains_key(v[j].0@),
        names_of(v)[v[j].0@] == v[j].1.0,
{
    let k = v[j].0@;
    assert(exists|i: int| 0 <= i < v.len() && (#[trigger] v[i]).0@ == k);
    let c = name_entry_index(v, k);
    assert(0 <= c < v.len() && v[c].0@ == k);
    if c < j {
        assert(v[c].0@ != v[j].0@);
    } else if c > j {
        assert(v[j].0@ != v[c].0@);
    }
}

proof fn lemma_names_of_push(v: Seq<(Name, DefId)>, e: (Name, DefId))
    requires
        unique_names(v),
        !names_of(v).contains_key(e.0@),
    ensures
        unique_names(v.push(e)),
        names_of(v.push(e)) == names_of(v).insert(e.0@, e.1.0),
{
    let w = v.push(e);
    assert forall|i: int, j: int| 0 <= i < j < w.len() implies (#[trigger] w[i]).0@ != (
    #[trigger] w[j]).0@ by {
        if j == v.len() {
            if w[i].0@ == e.0@ {
                assert(v[i].0@ == e.0@);
                assert(names_of(v).contains_key(e.0@));
            }
        } else {
            assert(v[i] == w[i] && v[j] == w[j]);
        }
    }
    lemma_names_of_at(w, v.len() as int);
    assert forall|k: Seq<char>| #[trigger] names_of(w).contains_key(k) == names_of(v).insert(e.0@, e.1.0).contains_key(k) by {
        if names_of(v).contains_key(k) {
            let i = choose|i: int| 0 <= i < v.len() && (#[trigger] v[i]).0@ == k;
            assert(w[i] == v[i]);
        }
        if names_of(w).contains_key(k) && k != e.0@ {
            let i = choose|i: int| 0 <= i < w.len() && (#[trigger] w[i]).0@ == k;
            assert(i < v.len());
            assert(v[i] == w[i]);
        }
    }
    assert forall|k: Seq<char>| #[trigger] names_of(w).contains_key(k) implies names_of(w)[k]
        == names_of(v).insert(e.0@, e.1.0)[k] by {
        if k != e.0@ {
            let i = choose|i: int| 0 <= i < w.len() && (#[trigger] w[i]).0@ == k;
            assert(i < v.len());
            assert(v[i] == w[i]);
            lemma_names_of_at(w, i);
            lemma_names_of_at(v, i);
        }
    }
    assert(names_of(w) =~= names_of(v).insert(e.0@, e.1.0));
}

proof fn lemma_names_of_update(v: Seq<(Name, DefId)>, i: int, e: (Name, DefId))
    requires
        unique_names(v),
        0 <= i < v.len(),
        v[i].0@ == e.0@,
    ensures
        unique_names(v.update(i, e)),
        names_of(v.update(i, e)) == names_of(v).insert(e.0@, e.1.0),
{
    let w = v.update(i, e);
    assert forall|a: int, b: int| 0 <= a < b < w.len() implies (#[trigger] w[a]).0@ != (
    #[trigger] w[b]).0@ by {
        assert(w[a].0@ == v[a].0@ && w[b].0@ == v[b].0@);
    }
    lemma_names_of_at(w, i);
    assert forall|k: Seq<char>| #[trigger] names_of(w).contains_key(k) == names_of(v).insert(e.0@, e.1.0).contains_key(k) by {
        if names_of(v).contains_key(k) {
            let j = choose|j: int| 0 <= j < v.len() && (#[trigger] v[j]).0@ == k;
            assert(w[j].0@ == k);
        }
        if names_of(w).contains_key(k) {
            let j = choose|j: int| 0 <= j < w.len() && (#[trigger] w[j]).0@ == k;
            assert(v[j].0@ == k);
        }
    }
    assert forall|k: Seq<char>| #[trigger] names_of(w).contains_key(k) implies names_of(w)[k]
        == names_of(v).insert(e.0@, e.1.0)[k] by {
        if k != e.0@ {
            let j = choose|j: int| 0 <= j < w.len() && (#[trigger] w[j]).0@ == k;
            assert(j != i);
            assert(v[j] == w[j]);
            lemma_names_of_at(w, j);
            lemma_names_of_at(v, j);
        }
    }
    assert(names_of(w) =~= names_of(v).insert(e.0@, e.1.0));
}

proof fn lemma_names_of_remove(v: Seq<(Name, DefId)>, i: int)
    requires
        unique_names(v),
        0 <= i < v.len(),
    ensures
        unique_names(v.remove(i)),
        names_of(v.remove(i)) == names_of(v).remove(v[i].0@),
{
    let w = v.remove(i);
    let n = v[i].0@;
    assert forall|a: int, b: int| 0 <= a < b < w.len() implies (#[trigger] w[a]).0@ != (
    #[trigger] w[b]).0@ by {
        let a2 = if a < i { a } else { a + 1 };
        let b2 = if b < i { b } else { b + 1 };
        assert(w[a] == v[a2] && w[b] == v[b2]);
    }
    assert forall|k: Seq<char>| #[trigger] names_of(w).contains_key(k) == names_of(v).remove(n).contains_key(k) by {
        if names_of(v).contains_key(k) && k != n {
            let j = choose|j: int| 0 <= j < v.len() && (#[trigger] v[j]).0@ == k;
            assert(j != i);
            let j2 = if j < i { j } else { j - 1 };
            assert(w[j2] == v[j]);
        }
        if names_of(w).contains_key(k) {
            let j = choose|j: int| 0 <= j < w.len() && (#[trigger] w[j]).0@ == k;
            let j2 = if j < i { j } else { j + 1 };
            assert(w[j] == v[j2]);
            assert(j2 != i);
            if k == n {
                if j2 < i {
                    assert(v[j2].0@ != v[i].0@);
                } else {
                    assert(v[i].0@ != v[j2].0@);
                }
            }
        }
    }
    assert forall|k: Seq<char>| #[trigger] names_of(w).contains_key(k) implies names_of(w)[k]
        == names_of(v).remove(n)[k] by {
        let j = choose|j: int| 0 <= j < w.len() && (#[trigger] w[j]).0@ == k;
        let j2 = if j < i { j } else { j + 1 };
        assert(w[j] == v[j2]);
        lemma_names_of_at(w, j);
        lemma_names_of_at(v, j2);
    }
    assert(names_of(w) =~= names_of(v).remove(n));
}

/// The index of the entry for a name.
fn find_name_in(v: &Vec<(Name, DefId)>, name: &Name) -> (r: Option<usize>)
    ensures
        match r {
            Some(i) => i < v@.len() && v@[i as int].0@ == name@,
            None => forall|i: int| 0 <= i < v@.len() ==> (#[trigger] v@[i]).0@ != name@,
        },
{
    let mut i: usize = 0;
    while i < v.len()
        invariant
            i <= v@.len(),
            forall|j: int| 0 <= j < i ==> (#[trigger] v@[j]).0@ != name@,
        decreases v@.len() - i,
    {
        if v[i].0.eq_name(name) {
            return Some(i);
        }
        i = i + 1;
    }
    None
}

impl DefNames {
    /// Hands out the next id for `name`: the id maps to the name, and the
    /// name to the id (a name defined before now maps to the new id, while
    /// its old id keeps its name).
    pub fn insert(&mut self, name: Name) -> (r: DefId)
        requires
            old(self).wf(),
            old(self)@.count < Val::MAX,
        ensures
            final(self).wf(),
            r.0 == old(self)@.count,
            final(self)@ == old(self)@.insert_name(name@),
    {
        let ghost old_view = self@;
        let def_id = self.id_count;
        proof {
            if self.id_to_name@.contains_key(def_id.0) {
                assert(self@.ids.contains_key(def_id.0));
            }
        }
        self.id_count = DefId(self.id_count.0 + 1);
        let n2 = name.clone_name();
        self.id_to_name.insert(def_id.0, n2);
        assert(self.id_to_name@.map_values(|n: Name| n@) =~= old_view.ids.insert(def_id.0, name@));
        match find_name_in(&self.name_to_id, &name) {
            Some(i) => {
                proof {
                    lemma_names_of_update(self.name_to_id@, i as int, (name, def_id));
                }
                self.name_to_id.set(i, (name, def_id));
            },
            None => {
                proof {
                    if names_of(self.name_to_id@).contains_key(name@) {
                        let j = choose|j: int|
                            0 <= j < self.name_to_id@.len() && (#[trigger] self.name_to_id@[j]).0@
                                == name@;
                        assert(self.name_to_id@[j].0@ != name@);
                    }
                    lemma_names_of_push(self.name_to_id@, (name, def_id));
                }
                self.name_to_id.push((name, def_id));
            },
        }
        assert(self@ == old_view.insert_name(name@));
        def_id
    }

    /// Frees an id: returns its name, and forgets both the id and that name.
    pub fn remove(&mut self, def_id: DefId) -> (r: Option<Name>)
        requires
            old(self).wf(),
        ensures
            final(self).wf(),
            match r {
                Some(n) => old(self)@.ids.contains_key(def_id.0) && n@ == old(self)@.ids[def_id.0],
                None => !old(self)@.ids.contains_key(def_id.0),
            },
            final(self)@ == old(self)@.remove_id(def_id.0),
    {
        let ghost old_view = self@;
        match self.id_to_name.get(&def_id.0) {
            Some(nam) => {
                match find_name_in(&self.name_to_id, nam) {
                    Some(i) => {
                        proof {
                            lemma_names_of_remove(self.name_to_id@, i as int);
                        }
                        self.name_to_id.remove(i);
                    },
                    None => {
                        proof {
                            if names_of(self.name_to_id@).contains_key(nam@) {
                                let j = choose|j: int|
                                    0 <= j < self.name_to_id@.len() && (
                                    #[trigger] self.name_to_id@[j]).0@ == nam@;
                                assert(self.name_to_id@[j].0@ != nam@);
                            }
                            assert(names_of(self.name_to_id@) =~= names_of(
                                self.name_to_id@,
                            ).remove(nam@));
                        }
                    },
                }
            },
            None => {},
        }
        let nam = self.id_to_name.remove(&def_id.0);
        assert(self.id_to_name@.map_values(|n: Name| n@) =~= old_view.ids.remove(def_id.0));
        assert(self@ == old_view.remove_id(def_id.0));
        nam
    }

    /// The defined names, each once, in no particular order.
    pub fn names(&self) -> (r: Vec<Name>)
        requires
            self.wf(),
        ensures
            r@.len() == self@.names.dom().len(),
            forall|i: int, j: int| 0 <= i < j < r@.len() ==> (#[trigger] r@[i])@ != (#[trigger] r@[j])@,
            forall|i: int| 0 <= i < r@.len() ==> self@.names.contains_key((#[trigger] r@[i])@),
            forall|n: Seq<char>| #[trigger] self@.names.contains_key(n) ==> exists|i: int|
                0 <= i < r@.len() && (#[trigger] r@[i])@ == n,
    {
        let mut r: Vec<Name> = Vec::new();
        let mut i: usize = 0;
        while i < self.name_to_id.len()
            invariant
                i <= self.name_to_id@.len(),
                r@.len() == i,
                unique_names(self.name_to_id@),
                forall|j: int| 0 <= j < i ==> (#[trigger] r@[j])@ == self.name_to_id@[j].0@,
            decreases self.name_to_id@.len() - i,
        {
            r.push(self.name_to_id[i].0.clone_name());
            i = i + 1;
        }
        proof {
            let v = self.name_to_id@;
            assert forall|a: int, b: int| 0 <= a < b < r@.len() implies (#[trigger] r@[a])@ != (
            #[trigger] r@[b])@ by {
                assert(v[a].0@ != v[b].0@);
            }
            assert forall|a: int| 0 <= a < r@.len() implies self@.names.contains_key(
                (#[trigger] r@[a])@,
            ) by {
                lemma_names_of_at(v, a);
            }
            assert forall|n: Seq<char>| #[trigger] self@.names.contains_key(n) implies exists|a: int|
                0 <= a < r@.len() && (#[trigger] r@[a])@ == n by {
                let a = choose|a: int| 0 <= a < v.len() && (#[trigger] v[a]).0@ == n;
                assert(r@[a]@ == n);
            }
            let s = r@.map_values(|x: Name| x@);
            assert forall|a: int, b: int| 0 <= a < b < s.len() implies s[a] != s[b] by {
                assert(r@[a]@ != r@[b]@);
            }
            assert(s.no_duplicates());
            s.unique_seq_to_set();
            assert(s.to_set() =~= self@.names.dom()) by {
                assert forall|n: Seq<char>| s.to_set().contains(n) implies self@.names.dom().contains(n) by {
                    let a = choose|a: int| 0 <= a < s.len() && s[a] == n;
                    assert(self@.names.contains_key(r@[a]@));
                }
                assert forall|n: Seq<char>| self@.names.dom().contains(n) implies s.to_set().contains(n) by {
                    assert(self@.names.contains_key(n));
                    let a = choose|a: int| 0 <= a < r@.len() && (#[trigger] r@[a])@ == n;
                    assert(s[a] == n);
                }
            }
        }
        r
    }
}

impl DefNames {
    /// The ids in use, each once, in increasing order.
    pub fn def_ids(&self) -> (r: Vec<DefId>)
        requires
            self.wf(),
        ensures
            forall|i: int, j: int| 0 <= i < j < r@.len() ==> (#[trigger] r@[i]).0 < (#[trigger] r@[j]).0,
            forall|i: int| 0 <= i < r@.len() ==> self@.ids.contains_key((#[trigger] r@[i]).0),
            forall|id: Val| #[trigger] self@.ids.contains_key(id) ==> exists|i: int|
                0 <= i < r@.len() && (#[trigger] r@[i]).0 == id,
    {
        let mut r: Vec<DefId> = Vec::new();
        let mut k: Val = 0;
        while k < self.id_count.0
            invariant
                k <= self.id_count.0,
                self.wf(),
                forall|i: int, j: int| 0 <= i < j < r@.len() ==> (#[trigger] r@[i]).0 < (#[trigger] r@[j]).0,
                forall|i: int| 0 <= i < r@.len() ==> (#[trigger] r@[i]).0 < k,
                forall|i: int| 0 <= i < r@.len() ==> self@.ids.contains_key((#[trigger] r@[i]).0),
                forall|id: Val| id < k && #[trigger] self@.ids.contains_key(id) ==> exists|i: int|
                    0 <= i < r@.len() && (#[trigger] r@[i]).0 == id,
            decreases self.id_count.0 - k,
        {
            let ghost r0 = r@;
            if self.id_to_name.contains_key(&k) {
                r.push(DefId(k));
                assert(r@[r@.len() - 1].0 == k);
                assert(self@.ids.contains_key(k));
            } else {
                assert(!self@.ids.contains_key(k));
            }
            assert forall|id: Val| id < k + 1 && #[trigger] self@.ids.contains_key(id) implies exists|i: int|
                0 <= i < r@.len() && (#[trigger] r@[i]).0 == id by {
                if id < k {
                    let i = choose|i: int| 0 <= i < r0.len() && (#[trigger] r0[i]).0 == id;
                    assert(r@[i] == r0[i]);
                } else {
                    assert(r@[r@.len() - 1].0 == k);
                }
            }
            k = k + 1;
        }
        r
    }
}

/// The representation of a program.
pub struct Book {
    /// Mapping of definition names to ids.
    pub def_names: DefNames,
    /// The function definitions, in increasing order of id.
    pub defs: Vec<Definition>,
    /// The algebraic datatypes defined by the program, each name once.
    pub adts: Vec<(Name, Adt)>,
    /// To which type does each constructor belong to, each constructor once.
    pub ctrs: Vec<(Name, Name)>,
}

/// The definitions are in strictly increasing order of id.
pub open spec fn defs_sorted(defs: Seq<Definition>) -> bool {
    forall|i: int, j: int| 0 <= i < j < defs.len() ==> (#[trigger] defs[i]).def_id.0 < (
    #[trigger] defs[j]).def_id.0
}

/// The position of the definition with an id, if there is one.
pub open spec fn def_index(defs: Seq<Definition>, id: Val) -> Option<int> {
    if exists|i: int| 0 <= i < defs.len() && (#[trigger] defs[i]).def_id.0 == id {
        Some(choose|i: int| 0 <= i < defs.len() && (#[trigger] defs[i]).def_id.0 == id)
    } else {
        None
    }
}

impl Book {
    /// The invariant that `new` establishes and the updates keep.
    pub open spec fn wf(&self) -> bool {
        &&& self.def_names.wf()
        &&& defs_sorted(self.defs@)
        &&& forall|i: int|
            0 <= i < self.defs@.len() ==> (#[trigger] self.defs@[i]).def_id.0
                < self.def_names@.count
        &&& forall|i: int, j: int|
            0 <= i < j < self.adts@.len() ==> (#[trigger] self.adts@[i]).0@ != (
            #[trigger] self.adts@[j]).0@
        &&& forall|i: int, j: int|
            0 <= i < j < self.ctrs@.len() ==> (#[trigger] self.ctrs@[i]).0@ != (
            #[trigger] self.ctrs@[j]).0@
    }

    /// An empty program.
    pub fn new() -> (r: Self)
        ensures
            r.wf(),
            r.def_names@.ids == Map::<Val, Seq<char>>::empty(),
            r.def_names@.names == Map::<Seq<char>, Val>::empty(),
            r.def_names@.count == 0,
            r.defs@.len() == 0,
            r.adts@.len() == 0,
            r.ctrs@.len() == 0,
    {
        Book { def_names: DefNames::new(), defs: Vec::new(), adts: Vec::new(), ctrs: Vec::new() }
    }

    /// Adds a definition under a fresh id, which it returns.
    pub fn insert_def(&mut self, name: Name, rules: Vec<Rule>) -> (r: DefId)
        requires
            old(self).wf(),
            old(self).def_names@.count < Val::MAX,
        ensures
            final(self).wf(),
            r.0 == old(self).def_names@.count,
            final(self).def_names@ == old(self).def_names@.insert_name(name@),
            final(self).defs@ == old(self).defs@.push(Definition { def_id: r, rules }),
            final(self).adts == old(self).adts,
            final(self).ctrs == old(self).ctrs,
    {
        let ghost old_defs = self.defs@;
        let def_id = self.def_names.insert(name);
        let def = Definition { def_id, rules };
        self.defs.push(def);
        assert(forall|i: int| 0 <= i < old_defs.len() ==> old_defs[i] == self.defs@[i]);
        def_id
    }

    /// Removes a definition: returns its name and itself, where the book had
    /// both.
    pub fn remove_def(&mut self, def_id: DefId) -> (r: Option<(Name, Definition)>)
        requires
            old(self).wf(),
        ensures
            final(self).wf(),
            final(self).def_names@ == old(self).def_names@.remove_id(def_id.0),
            match def_index(old(self).defs@, def_id.0) {
                Some(i) => final(self).defs@ == old(self).defs@.remove(i),
                None => final(self).defs@ == old(self).defs@,
            },
            match r {
                Some((n, d)) => {
                    &&& old(self).def_names@.ids.contains_key(def_id.0)
                    &&& n@ == old(self).def_names@.ids[def_id.0]
                    &&& def_index(old(self).defs@, def_id.0) is Some
                    &&& d == old(self).defs@[def_index(old(self).defs@, def_id.0)->0]
                },
                None => !old(self).def_names@.ids.contains_key(def_id.0) || def_index(
                    old(self).defs@,
                    def_id.0,
                ) is None,
            },
            final(self).adts == old(self).adts,
            final(self).ctrs == old(self).ctrs,
    {
        let ghost old_defs = self.defs@;
        let def = match find_def(&self.defs, def_id) {
            Some(i) => {
                proof {
                    lemma_def_index_unique(old_defs, i as int);
                }
                let d = self.defs.remove(i);
                assert forall|a: int, b: int|
                    0 <= a < b < self.defs@.len() implies (#[trigger] self.defs@[a]).def_id.0 < (
                #[trigger] self.defs@[b]).def_id.0 by {
                    let a2 = if a < i { a } else { a + 1 };
                    let b2 = if b < i { b } else { b + 1 };
                    assert(self.defs@[a] == old_defs[a2] && self.defs@[b] == old_defs[b2]);
                }
                assert forall|a: int| 0 <= a < self.defs@.len() implies (
                #[trigger] self.defs@[a]).def_id.0 < self.def_names@.count by {
                    let a2 = if a < i { a } else { a + 1 };
                    assert(self.defs@[a] == old_defs[a2]);
                }
                Some(d)
            },
            None => None,
        };
        let name = self.def_names.remove(def_id);
        match (name, def) {
            (Some(n), Some(d)) => Some((n, d)),
            _ => None,
        }
    }

    /// The definition with an id, where there is one.
    pub fn get_def(&self, def_id: DefId) -> (r: Option<&Definition>)
        requires
            defs_sorted(self.defs@),
        ensures
            match r {
                Some(d) => def_index(self.defs@, def_id.0) is Some && *d == self.defs@[def_index(
                    self.defs@,
                    def_id.0,
                )->0],
                None => def_index(self.defs@, def_id.0) is None,
            },
    {
        match find_def(&self.defs, def_id) {
            Some(i) => {
                proof {
                    lemma_def_index_unique(self.defs@, i as int);
                }
                Some(&self.defs[i])
            },
            None => None,
        }
    }
}

/// In sorted definitions, the position found for an id is the one there is.
proof fn lemma_def_index_unique(defs: Seq<Definition>, i: int)
    requires
        defs_sorted(defs),
        0 <= i < defs.len(),
    ensures
        def_index(defs, defs[i].def_id.0) == Some(i),
{
    let id = defs[i].def_id.0;
    assert(exists|j: int| 0 <= j < defs.len() && (#[trigger] defs[j]).def_id.0 == id);
    let c = choose|j: int| 0 <= j < defs.len() && (#[trigger] defs[j]).def_id.0 == id;
    if c < i {
        assert(defs[c].def_id.0 < defs[i].def_id.0);
    } else if c > i {
        assert(defs[i].def_id.0 < defs[c].def_id.0);
    }
}

/// The position of the definition with an id.
fn find_def(defs: &Vec<Definition>, def_id: DefId) -> (r: Option<usize>)
    ensures
        match r {
            Some(i) => i < defs@.len() && defs@[i as int].def_id.0 == def_id.0,
            None => def_index(defs@, def_id.0) is None,
        },
{
    let mut i: usize = 0;
    while i < defs.len()
        invariant
            i <= defs@.len(),
            forall|j: int| 0 <= j < i ==> (#[trigger] defs@[j]).def_id.0 != def_id.0,
        decreases defs@.len() - i,
    {
        if defs[i].def_id.0 == def_id.0 {
            return Some(i);
        }
        i = i + 1;
    }
    None
}

/// A name read back after `insert` is the name inserted, under the id that
/// `insert` returned.
pub proof fn law_insert_then_lookup(v: DefNamesView, name: Seq<char>)
    requires
        v.count < Val::MAX,
    ensures
        v.insert_name(name).ids.contains_key(v.count),
        v.insert_name(name).ids[v.count] == name,
        v.insert_name(name).names.contains_key(name),
        v.insert_name(name).names[name] == v.count,
        v.insert_name(name).count == v.count + 1,
{
}

/// The id that `insert` hands out is not in use.
pub proof fn law_inserted_id_is_fresh(v: DefNamesView)
    requires
        v.consistent(),
    ensures
        !v.ids.contains_key(v.count),
{
}

/// A well-formed name table is consistent.
pub proof fn lemma_def_names_consistent(d: DefNames)
    requires
        d.wf(),
    ensures
        d@.consistent(),
{
}

/// Every update keeps the names and ids consistent with each other.
pub proof fn law_updates_keep_consistency(v: DefNamesView, name: Seq<char>, id: Val)
    requires
        v.consistent(),
        v.count < Val::MAX,
    ensures
        v.insert_name(name).consistent(),
        v.remove_id(id).consistent(),
{
    let w = v.insert_name(name);
    assert forall|n: Seq<char>| #[trigger] w.names.contains_key(n) implies {
        &&& w.ids.contains_key(w.names[n])
        &&& w.ids[w.names[n]] == n
    } by {
        if n != name {
            assert(v.names.contains_key(n));
            assert(v.names[n] < v.count);
        }
    }
    let u = v.remove_id(id);
    assert forall|n: Seq<char>| #[trigger] u.names.contains_key(n) implies {
        &&& u.ids.contains_key(u.names[n])
        &&& u.ids[u.names[n]] == n
    } by {
        assert(v.names.contains_key(n));
        if v.names[n] == id {
            assert(v.ids[id] == n);
        }
    }
}

/// Removing the id of a fresh name right after inserting it gives back the
/// names and ids there were before.
pub proof fn law_insert_then_remove(v: DefNamesView, name: Seq<char>)
    requires
        v.consistent(),
        !v.names.contains_key(name),
    ensures
        v.insert_name(name).remove_id(v.count).ids == v.ids,
        v.insert_name(name).remove_id(v.count).names == v.names,
{
    assert(!v.ids.contains_key(v.count));
    assert(v.insert_name(name).remove_id(v.count).ids =~= v.ids);
    assert(v.insert_name(name).remove_id(v.count).names =~= v.names);
}

/// Removing the definition that `insert_def` just added gives back the
/// definitions there were before.
pub proof fn law_insert_def_then_remove_def(defs: Seq<Definition>, count: Val, d: Definition)
    requires
        defs_sorted(defs),
        forall|i: int| 0 <= i < defs.len() ==> (#[trigger] defs[i]).def_id.0 < count,
        d.def_id.0 == count,
    ensures
        def_index(defs.push(d), count) == Some(defs.len() as int),
        defs.push(d).remove(defs.len() as int) == defs,
{
    let w = defs.push(d);
    assert(defs_sorted(w)) by {
        assert forall|i: int, j: int| 0 <= i < j < w.len() implies (#[trigger] w[i]).def_id.0 < (
        #[trigger] w[j]).def_id.0 by {
            if j < defs.len() {
                assert(w[i] == defs[i] && w[j] == defs[j]);
            } else {
                assert(w[i] == defs[i]);
            }
        }
    }
    lemma_def_index_unique(w, defs.len() as int);
    assert(w.remove(defs.len() as int) =~= defs);
}

} // verus!
