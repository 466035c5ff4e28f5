use vstd::prelude::*;
use std::collections::HashMap;

verus! {

broadcast use vstd::std_specs::hash::group_hash_axioms;

/// Name shown for a socket that no process owns (pid 0).
pub open spec fn system_name() -> Seq<char> {
    seq!['S', 'y', 's', 't', 'e', 'm']
}

/// Name shown for a socket whose owner is known but whose name is not.
pub open spec fn unresolved_name() -> Seq<char> {
    seq!['-']
}

/// A snapshot of the process table: process identifier to process name.
pub struct ProcessNameIndex {
    names: HashMap<u32, String>,
}

impl View for ProcessNameIndex {
    type V = Map<u32, Seq<char>>;

    closed spec fn view(&self) -> Map<u32, Seq<char>> {
        Map::new(|pid: u32| self.names@.contains_key(pid), |pid: u32| self.names@[pid]@)
    }
}

/// The name given to a socket owned by `pid`: the name the index holds for it,
/// else `System` for pid 0, else the placeholder `-`.
pub open spec fn resolved_name(index: Map<u32, Seq<char>>, pid: u32) -> Seq<char> {
    if index.contains_key(pid) {
        index[pid]
    } else if pid == 0 {
        system_name()
    } else {
        unresolved_name()
    }
}

impl ProcessNameIndex {
    /// An index that knows no process.
    pub fn new() -> (r: ProcessNameIndex)
        ensures
            r@ == Map::<u32, Seq<char>>::empty(),
    {
        let r = ProcessNameIndex { names: HashMap::new() };
        assert(r@ =~= Map::<u32, Seq<char>>::empty());
        r
    }

    /// Records the name of process `pid`, replacing any earlier one.
    pub fn insert(&mut self, pid: u32, name: String)
        ensures
            final(self)@ == old(self)@.insert(pid, name@),
    {
        self.names.insert(pid, name);
        assert(self@ =~= old(self)@.insert(pid, name@));
    }

    /// The name held for `pid`, if any.
    pub fn get(&self, pid: u32) -> (r: Option<String>)
        ensures
            r is Some <==> self@.contains_key(pid),
            r is Some ==> r->0@ == self@[pid],
    {
        match self.names.get(&pid) {
            Some(name) => Some(name.clone()),
            None => None,
        }
    }

    /// The name to show for a socket owned by `pid`.
    pub fn name_for(&self, pid: u32) -> (r: String)
        ensures
            r@ == resolved_name(self@, pid),
    {
        match self.get(pid) {
            Some(name) => name,
            None => {
                let mut r = String::new();
                if pid == 0 {
                    crate::text::push_str(&mut r, "System");
                    proof { reveal_strlit("System"); }
                } else {
                    crate::text::push_str(&mut r, "-");
                    proof { reveal_strlit("-"); }
                }
                assert(r@ =~= resolved_name(self@, pid));
                r
            },
        }
    }
}

} // verus!
