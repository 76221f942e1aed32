//! The workspace index that validation consults: registered components by
//! name and the type names defined in the workspace.

use vstd::prelude::*;
use crate::text::str_eq;

verus! {

/// A registered component: its name and type.
#[derive(Debug)]
pub struct ComponentInfo {
    pub name: String,
    pub ty_name: String,
}

/// Registered components and defined symbols.
pub struct IndexManager {
    components: Vec<ComponentInfo>,
    symbols: Vec<String>,
}

/// The type of the first component registered under `name`.
pub open spec fn component_lookup(cs: Seq<ComponentInfo>, name: Seq<char>) -> Option<Seq<char>>
    decreases cs.len(),
{
    if cs.len() == 0 {
        None
    } else if cs[0].name@ == name {
        Some(cs[0].ty_name@)
    } else {
        component_lookup(cs.drop_first(), name)
    }
}

impl IndexManager {
    /// The type of the component registered under `name`.
    pub closed spec fn component_type(&self, name: Seq<char>) -> Option<Seq<char>> {
        component_lookup(self.components@, name)
    }

    /// Whether a symbol named `name` is defined.
    pub closed spec fn has_symbol(&self, name: Seq<char>) -> bool {
        exists|i: int| 0 <= i < self.symbols@.len() && #[trigger] self.symbols@[i]@ == name
    }

    /// An empty index.
    pub fn new() -> (r: IndexManager)
        ensures
            forall|n: Seq<char>| r.component_type(n) is None && !r.has_symbol(n),
    {
        IndexManager { components: Vec::new(), symbols: Vec::new() }
    }

    /// Registers a component; an earlier one of the same name is found first.
    pub fn add_component(&mut self, name: String, ty_name: String)
        ensures
            forall|n: Seq<char>| #[trigger] final(self).component_type(n) == (match old(self).component_type(n) {
                Some(t) => Some(t),
                None => if n == name@ { Some(ty_name@) } else { None },
            }),
            forall|n: Seq<char>| #[trigger] final(self).has_symbol(n) == old(self).has_symbol(n),
    {
        let ghost before = self.components@;
        let ghost syms = self.symbols;
        let ghost nv = name@;
        let ghost tv = ty_name@;
        self.components.push(ComponentInfo { name, ty_name });
        proof {
            assert forall|n: Seq<char>| #[trigger] component_lookup(self.components@, n) == (match component_lookup(before, n) {
                Some(t) => Some(t),
                None => if n == nv { Some(tv) } else { None },
            }) by {
                lemma_lookup_push(before, self.components@.last(), n);
                assert(self.components@ =~= before.push(self.components@.last()));
            }
            assert(self.symbols == syms);
        }
    }

    /// Records that a symbol is defined.
    pub fn add_symbol(&mut self, name: String)
        ensures
            forall|n: Seq<char>| #[trigger] final(self).has_symbol(n) == (old(self).has_symbol(n) || n == name@),
            forall|n: Seq<char>| #[trigger] final(self).component_type(n) == old(self).component_type(n),
    {
        let ghost before = self.symbols@;
        self.symbols.push(name);
        proof {
            assert forall|n: Seq<char>| #[trigger] self.has_symbol(n) == ((exists|i: int| 0 <= i < before.len() && #[trigger] before[i]@ == n) || n == self.symbols@.last()@) by {
                if exists|i: int| 0 <= i < before.len() && #[trigger] before[i]@ == n {
                    let i = choose|i: int| 0 <= i < before.len() && #[trigger] before[i]@ == n;
                    assert(self.symbols@[i]@ == n);
                }
                if exists|i: int| 0 <= i < self.symbols@.len() && #[trigger] self.symbols@[i]@ == n {
                    let i = choose|i: int| 0 <= i < self.symbols@.len() && #[trigger] self.symbols@[i]@ == n;
                    if i < before.len() {
                        assert(before[i]@ == n);
                    }
                }
                assert(self.symbols@[self.symbols@.len() - 1]@ == self.symbols@.last()@);
            }
        }
    }

    /// The component registered under `name`.
    pub fn find_component(&self, name: &str) -> (r: Option<&ComponentInfo>)
        ensures
            match r {
                Some(c) => self.component_type(name@) == Some(c.ty_name@) && c.name@ == name@,
                None => self.component_type(name@) is None,
            },
    {
        let mut i: usize = 0;
        proof {
            assert(self.components@.subrange(0, self.components@.len() as int) =~= self.components@);
        }
        while i < self.components.len()
            invariant
                i <= self.components@.len(),
                component_lookup(self.components@, name@) == component_lookup(
                    self.components@.subrange(i as int, self.components@.len() as int),
                    name@,
                ),
            decreases self.components@.len() - i,
        {
            proof {
                let sub = self.components@.subrange(i as int, self.components@.len() as int);
                assert(sub.drop_first() =~= self.components@.subrange(i + 1, self.components@.len() as int));
                assert(sub[0] == self.components@[i as int]);
            }
            if str_eq(self.components[i].name.as_str(), name) {
                return Some(&self.components[i]);
            }
            i = i + 1;
        }
        None
    }

    /// Whether a symbol named `name` is defined.
    pub fn find_symbol(&self, name: &str) -> (r: bool)
        ensures
            r == self.has_symbol(name@),
    {
        let mut i: usize = 0;
        while i < self.symbols.len()
            invariant
                i <= self.symbols@.len(),
                forall|k: int| 0 <= k < i ==> self.symbols@[k]@ != name@,
            decreases self.symbols@.len() - i,
        {
            if str_eq(self.symbols[i].as_str(), name) {
                return true;
            }
            i = i + 1;
        }
        false
    }
}

proof fn lemma_lookup_push(cs: Seq<ComponentInfo>, c: ComponentInfo, n: Seq<char>)
    ensures
        component_lookup(cs.push(c), n) == (match component_lookup(cs, n) {
            Some(t) => Some(t),
            None => if n == c.name@ { Some(c.ty_name@) } else { None },
        }),
    decreases cs.len(),
{
    if cs.len() > 0 {
        assert(cs.push(c).drop_first() =~= cs.drop_first().push(c));
        assert(cs.push(c)[0] == cs[0]);
        lemma_lookup_push(cs.drop_first(), c, n);
    } else {
        assert(cs.push(c).drop_first() =~= Seq::<ComponentInfo>::empty());
        assert(component_lookup(Seq::<ComponentInfo>::empty(), n) is None);
        assert(cs.push(c)[0] == c);
    }
}

} // verus!
