//! Tool registry: tools registered by name, looked up by name.

use vstd::prelude::*;

verus! {

/// A registry of tools of type `T`, each under its name; registering a name
/// again replaces the tool registered under it.
pub struct ToolRegistry<T> {
    tools: Vec<(String, T)>,
}

/// The names of the entries, in registration order.
pub open spec fn entry_names<T>(entries: Seq<(String, T)>) -> Seq<Seq<char>> {
    entries.map_values(|e: (String, T)| e.0@)
}

impl<T> ToolRegistry<T> {
    /// The registered (name, tool) pairs, in registration order.
    pub closed spec fn entries(&self) -> Seq<(String, T)> {
        self.tools@
    }

    /// The registered names, in registration order.
    pub open spec fn names(&self) -> Seq<Seq<char>> {
        entry_names(self.entries())
    }

    /// The tool registered under `name`, if any.
    pub open spec fn lookup(&self, name: Seq<char>) -> Option<T> {
        if exists|i: int| 0 <= i < self.entries().len() && #[trigger] self.entries()[i].0@ == name {
            let i = choose|i: int| 0 <= i < self.entries().len() && #[trigger] self.entries()[i].0@ == name;
            Some(self.entries()[i].1)
        } else {
            None
        }
    }

    /// Each name is registered once.
    pub open spec fn wf(&self) -> bool {
        self.names().no_duplicates()
    }

    /// An empty registry.
    pub fn new() -> (r: Self)
        ensures
            r.wf(),
            r.entries().len() == 0,
            forall|n: Seq<char>| r.lookup(n) is None,
    {
        let r = ToolRegistry { tools: Vec::new() };
        assert(r.names() =~= Seq::<Seq<char>>::empty());
        r
    }

    fn position(&self, name: &str) -> (r: Option<usize>)
        ensures
            r matches Some(i) ==> i < self.entries().len() && self.entries()[i as int].0@ == name@,
            r is None ==> forall|i: int| 0 <= i < self.entries().len() ==> #[trigger] self.entries()[i].0@ != name@,
    {
        let mut i: usize = 0;
        while i < self.tools.len()
            invariant
                i <= self.tools@.len(),
                forall|j: int| 0 <= j < i ==> #[trigger] self.tools@[j].0@ != name@,
            decreases self.tools.len() - i,
        {
            if crate::text::eq_str(self.tools[i].0.as_str(), name) {
                return Some(i);
            }
            i = i + 1;
        }
        None
    }

    /// Registers `tool` under `name`, replacing any tool registered under it.
    pub fn register(&mut self, name: &str, tool: T)
        requires
            old(self).wf(),
        ensures
            final(self).wf(),
            final(self).lookup(name@) == Some(tool),
            forall|n: Seq<char>| n != name@ ==> #[trigger] final(self).lookup(n) == old(self).lookup(n),
            old(self).lookup(name@) is Some ==> final(self).names() == old(self).names(),
            old(self).lookup(name@) is None ==> final(self).names() == old(self).names().push(name@),
    {
        match self.position(name) {
            Some(i) => {
                let ghost before = self.tools@;
                let entry = (name.to_owned(), tool);
                self.tools.set(i, entry);
                assert(self.names() =~= entry_names(before));
                proof {
                    assert(self.entries()[i as int].0@ == name@);
                    assert forall|n: Seq<char>| n != name@ implies #[trigger] self.lookup(n) == old(self).lookup(n) by {
                        if exists|j: int| 0 <= j < before.len() && #[trigger] before[j].0@ == n {
                            let j = choose|j: int| 0 <= j < before.len() && #[trigger] before[j].0@ == n;
                            assert(self.entries()[j].0@ == n);
                            let k = choose|k: int| 0 <= k < self.entries().len() && #[trigger] self.entries()[k].0@ == n;
                            assert(before[k].0@ == n);
                            assert(entry_names(before)[k] == entry_names(before)[j]);
                        } else {
                            if exists|j: int| 0 <= j < self.entries().len() && #[trigger] self.entries()[j].0@ == n {
                                let j = choose|j: int| 0 <= j < self.entries().len() && #[trigger] self.entries()[j].0@ == n;
                                assert(before[j].0@ == n);
                            }
                        }
                    }
                    let k = choose|k: int| 0 <= k < self.entries().len() && #[trigger] self.entries()[k].0@ == name@;
                    assert(entry_names(before)[k] == entry_names(before)[i as int]);
                }
            },
            None => {
                let ghost before = self.tools@;
                let entry = (name.to_owned(), tool);
                self.tools.push(entry);
                assert(self.names() =~= entry_names(before).push(name@));
                proof {
                    assert(self.entries()[before.len() as int].0@ == name@);
                    assert forall|a: int, b: int| 0 <= a < b < self.names().len() implies self.names()[a] != self.names()[b] by {
                        if b == before.len() {
                            assert(before[a].0@ != name@);
                        } else {
                            assert(entry_names(before)[a] != entry_names(before)[b]);
                        }
                    }
                    assert forall|n: Seq<char>| n != name@ implies #[trigger] self.lookup(n) == old(self).lookup(n) by {
                        if exists|j: int| 0 <= j < before.len() && #[trigger] before[j].0@ == n {
                            let j = choose|j: int| 0 <= j < before.len() && #[trigger] before[j].0@ == n;
                            assert(self.entries()[j].0@ == n);
                            let k = choose|k: int| 0 <= k < self.entries().len() && #[trigger] self.entries()[k].0@ == n;
                            assert(before[k].0@ == n);
                            assert(entry_names(before)[k] == entry_names(before)[j]);
                        } else {
                            if exists|j: int| 0 <= j < self.entries().len() && #[trigger] self.entries()[j].0@ == n {
                                let j = choose|j: int| 0 <= j < self.entries().len() && #[trigger] self.entries()[j].0@ == n;
                                assert(before[j].0@ == n);
                            }
                        }
                    }
                    let k = choose|k: int| 0 <= k < self.entries().len() && #[trigger] self.entries()[k].0@ == name@;
                    assert(k == before.len());
                }
            },
        }
    }

    /// The tool registered under `name`.
    pub fn get(&self, name: &str) -> (r: Option<&T>)
        requires
            self.wf(),
        ensures
            r matches Some(t) ==> self.lookup(name@) == Some(*t),
            r is None ==> self.lookup(name@) is None,
    {
        match self.position(name) {
            Some(i) => {
                proof {
                    let k = choose|k: int| 0 <= k < self.entries().len() && #[trigger] self.entries()[k].0@ == name@;
                    assert(self.names()[k] == self.names()[i as int]);
                }
                Some(&self.tools[i].1)
            },
            None => None,
        }
    }

    /// The registered names, in registration order.
    pub fn list(&self) -> (r: Vec<String>)
        ensures
            r@.map_values(|s: String| s@) == self.names(),
    {
        let mut r: Vec<String> = Vec::new();
        let mut i: usize = 0;
        while i < self.tools.len()
            invariant
                i <= self.tools@.len(),
                r@.map_values(|s: String| s@) == self.names().take(i as int),
            decreases self.tools.len() - i,
        {
            let ghost before = r@;
            let c = self.tools[i].0.clone();
            r.push(c);
            assert(r@.map_values(|s: String| s@) =~= before.map_values(|s: String| s@).push(c@));
            assert(self.names().take(i + 1) =~= self.names().take(i as int).push(self.names()[i as int]));
            i = i + 1;
        }
        assert(self.names().take(i as int) =~= self.names());
        r
    }

    /// The number of registered tools.
    pub fn count(&self) -> (r: usize)
        ensures
            r == self.names().len(),
    {
        self.tools.len()
    }
}

} // verus!
