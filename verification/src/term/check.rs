//! Checks on a program.
use vstd::prelude::*;
use super::{Book, DefId, Definition, Name, TermV};
use super::display::append;

verus! {

/// The book of definitions that the checks run on.
pub type DefinitionBook = Book;

/// Whether the body of a definition, that of its first rule, is just a
/// reference; a definition with no rule has no body and is none.
pub open spec fn is_ref_def(d: Definition) -> bool {
    d.rules@.len() > 0 && d.rules@[0].body@ is Ref
}

/// Whether none of the definitions before position `i` is just a reference.
pub open spec fn no_ref_def_before(defs: Seq<Definition>, i: int) -> bool {
    forall|j: int| 0 <= j < i ==> !is_ref_def(#[trigger] defs[j])
}

/// The message for a definition that is just a reference.
pub open spec fn ref_to_ref_message(name: Seq<char>) -> Seq<char> {
    "Definition "@ + name + " is just a reference to another definition"@
}


impl DefinitionBook {
    /// The id of the entry point, `main`.
    pub fn check_has_main(&self) -> (r: Result<DefId, String>)
        requires
            self.def_names.wf(),
        ensures
            match r {
                Ok(main) => self.def_names@.names.contains_key("main"@) && main.0
                    == self.def_names@.names["main"@],
                Err(msg) => !self.def_names@.names.contains_key("main"@) && msg@
                    == "File has no 'main' definition"@,
            },
    {
        if let Some(main) = self.def_names.def_id(&Name::new("main")) {
            Ok(main)
        } else {
            Err("File has no 'main' definition".to_owned())
        }
    }

    /// Checks that no definition is just a reference to another
    /// definition; the error names the first one, in order of id.
    #[verifier::loop_isolation(false)]
    pub fn check_ref_to_ref(&self) -> (r: Result<(), String>)
        requires
            forall|i: int|
                0 <= i < self.defs@.len() && no_ref_def_before(self.defs@, i) && is_ref_def(
                    #[trigger] self.defs@[i],
                ) ==> self.def_names@.ids.contains_key(self.defs@[i].def_id.0),
        ensures
            match r {
                Ok(()) => no_ref_def_before(self.defs@, self.defs@.len() as int),
                Err(msg) => exists|i: int|
                    0 <= i < self.defs@.len() && no_ref_def_before(self.defs@, i) && is_ref_def(
                        #[trigger] self.defs@[i],
                    ) && msg@ == ref_to_ref_message(self.def_names@.ids[self.defs@[i].def_id.0]),
            },
    {
        let n = self.defs.len();
        let mut i: usize = 0;
        while i < n
            invariant
                n == self.defs@.len(),
                i <= n,
                no_ref_def_before(self.defs@, i as int),
            decreases n - i,
        {
            let def = &self.defs[i];
            if def.rules.len() == 0 {
                i = i + 1;
                continue;
            }
            if let super::Term::Ref { .. } = def.rules[0].body {
                assert(is_ref_def(self.defs@[i as int]));
                let mut msg = String::new();
                append(&mut msg, "Definition ");
                match self.def_names.name(&def.def_id) {
                    Some(nam) => append(&mut msg, nam.0.as_str()),
                    None => {},
                }
                append(&mut msg, " is just a reference to another definition");
                assert(msg@ =~= ref_to_ref_message(self.def_names@.ids[self.defs@[i as int].def_id.0]));
                return Err(msg);
            }
            i = i + 1;
        }
        Ok(())
    }
}

} // verus!
