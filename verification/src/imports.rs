//! Which modules a program loads, and in what order: the imports of the main module,
//! then theirs, each module once.
use vstd::prelude::*;

use crate::ast::Module;
use crate::text::same_text;

verus! {

/// The names of a list of strings.
pub open spec fn names(v: Seq<String>) -> Seq<Seq<char>> {
    v.map_values(|x: String| x@)
}

/// Whether no name occurs twice.
pub open spec fn distinct(s: Seq<Seq<char>>) -> bool {
    forall|i: int, j: int| 0 <= i < j < s.len() ==> s[i] != s[j]
}

/// The names not among `loaded`.
pub open spec fn not_loaded(loaded: Seq<Seq<char>>) -> spec_fn(Seq<char>) -> bool {
    |n: Seq<char>| !loaded.contains(n)
}

/// Breadth-first resolution of imports: names wait in a queue, and each is handed out
/// to be loaded the first time it comes up.
pub struct ImportResolver {
    queue: Vec<String>,
    head: usize,
    loaded: Vec<String>,
}

fn contains_name(v: &Vec<String>, name: &str) -> (r: bool)
    ensures
        r == names(v@).contains(name@),
{
    let mut i: usize = 0;
    while i < v.len()
        invariant
            i <= v@.len(),
            forall|j: int| 0 <= j < i ==> v@[j]@ != name@,
        decreases v@.len() - i,
    {
        if same_text(v[i].as_str(), name) {
            assert(names(v@)[i as int] == name@);
            return true;
        }
        i += 1;
    }
    assert(!names(v@).contains(name@)) by {
        if names(v@).contains(name@) {
            let k = choose|k: int| 0 <= k < names(v@).len() && names(v@)[k] == name@;
            assert(v@[k]@ == name@);
        }
    }
    false
}

impl ImportResolver {
    /// The names still waiting, in order.
    pub closed spec fn waiting(&self) -> Seq<Seq<char>> {
        names(self.queue@).skip(self.head as int)
    }

    /// The names handed out so far, in order.
    pub closed spec fn loaded(&self) -> Seq<Seq<char>> {
        names(self.loaded@)
    }

    pub closed spec fn wf(&self) -> bool {
        &&& self.head <= self.queue@.len()
        &&& distinct(names(self.loaded@))
    }

    /// Starts from the imports of the main module.
    pub fn new(imports: &Vec<String>) -> (r: ImportResolver)
        ensures
            r.wf(),
            r.waiting() == names(imports@),
            r.loaded() == Seq::<Seq<char>>::empty(),
    {
        let mut queue: Vec<String> = Vec::new();
        let mut i: usize = 0;
        while i < imports.len()
            invariant
                i <= imports@.len(),
                names(queue@) == names(imports@).take(i as int),
            decreases imports@.len() - i,
        {
            let ghost before = queue@;
            queue.push(imports[i].clone());
            assert(names(queue@) =~= names(before).push(imports@[i as int]@));
            assert(names(imports@).take(i + 1) =~= names(imports@).take(i as int).push(imports@[i as int]@));
            i += 1;
        }
        let r = ImportResolver { queue, head: 0, loaded: Vec::new() };
        assert(names(r.queue@).skip(0) =~= names(imports@));
        assert(names(r.loaded@) =~= Seq::<Seq<char>>::empty());
        r
    }

    /// The next module to load: the first waiting name not loaded yet, which counts as
    /// loaded from now on. `None` once no such name waits.
    pub fn next_module(&mut self) -> (r: Option<String>)
        requires
            old(self).wf(),
        ensures
            final(self).wf(),
            match r {
                Some(n) => exists|k: int| {
                    &&& 0 <= k < old(self).waiting().len()
                    &&& n@ == #[trigger] old(self).waiting()[k]
                    &&& !old(self).loaded().contains(n@)
                    &&& forall|j: int| 0 <= j < k
                        ==> old(self).loaded().contains(#[trigger] old(self).waiting()[j])
                    &&& final(self).waiting() == old(self).waiting().skip(k + 1)
                    &&& final(self).loaded() == old(self).loaded().push(n@)
                },
                None => {
                    &&& final(self).loaded() == old(self).loaded()
                    &&& forall|k: int| 0 <= k < old(self).waiting().len()
                        ==> old(self).loaded().contains(#[trigger] old(self).waiting()[k])
                    &&& final(self).waiting().len() == 0
                },
            },
    {
        while self.head < self.queue.len()
            invariant
                self.wf(),
                self.loaded@ == old(self).loaded@,
                self.queue@ == old(self).queue@,
                old(self).head <= self.head,
                forall|k: int| old(self).head <= k < self.head
                    ==> names(self.loaded@).contains(#[trigger] names(self.queue@)[k]),
            decreases self.queue@.len() - self.head,
        {
            let i = self.head;
            self.head = self.head + 1;
            if !contains_name(&self.loaded, self.queue[i].as_str()) {
                let name = self.queue[i].clone();
                let ghost before = self.loaded@;
                self.loaded.push(name.clone());
                proof {
                    assert(names(self.loaded@) =~= names(before).push(name@));
                    assert(names(old(self).queue@).skip(old(self).head as int)[i - old(self).head] == name@);
                    assert forall|a: int, b: int| 0 <= a < b < names(self.loaded@).len() implies names(self.loaded@)[a] != names(self.loaded@)[b] by {
                        if b == names(self.loaded@).len() - 1 {
                            assert(names(before)[a] == names(self.loaded@)[a]);
                        }
                    }
                    let k = i - old(self).head;
                    assert(self.waiting() =~= old(self).waiting().skip(k + 1));
                    assert(old(self).waiting()[k] == name@);
                    assert forall|j: int| 0 <= j < k
                        implies old(self).loaded().contains(#[trigger] old(self).waiting()[j]) by {
                        assert(old(self).waiting()[j] == names(self.queue@)[j + old(self).head]);
                    }
                }
                return Some(name);
            }
        }
        proof {
            assert forall|k: int| 0 <= k < old(self).waiting().len()
                implies old(self).loaded().contains(#[trigger] old(self).waiting()[k]) by {
                assert(old(self).waiting()[k] == names(self.queue@)[k + old(self).head]);
            }
        }
        None
    }

    /// Queues the imports of a module just loaded, except those already loaded.
    pub fn module_loaded(&mut self, imports: &Vec<String>)
        requires
            old(self).wf(),
        ensures
            final(self).wf(),
            final(self).loaded() == old(self).loaded(),
            final(self).waiting() == old(self).waiting()
                + names(imports@).filter(not_loaded(old(self).loaded())),
    {
        let ghost w0 = self.waiting();
        let mut i: usize = 0;
        while i < imports.len()
            invariant
                i <= imports@.len(),
                self.wf(),
                self.loaded@ == old(self).loaded@,
                self.head == old(self).head,
                old(self).head <= old(self).queue@.len(),
                names(self.queue@).skip(self.head as int)
                    == w0 + names(imports@).take(i as int).filter(not_loaded(old(self).loaded())),
            decreases imports@.len() - i,
        {
            let ghost q0 = self.queue@;
            let ghost t0 = names(imports@).take(i as int);
            let ghost t1 = names(imports@).take(i + 1);
            assert(t1 =~= t0.push(imports@[i as int]@));
            assert(t1.filter(not_loaded(old(self).loaded())) == if not_loaded(old(self).loaded())(imports@[i as int]@) {
                t0.filter(not_loaded(old(self).loaded())).push(imports@[i as int]@)
            } else {
                t0.filter(not_loaded(old(self).loaded()))
            }) by {
                reveal(Seq::filter);
                assert(t1.drop_last() =~= t0);
            }
            if !contains_name(&self.loaded, imports[i].as_str()) {
                self.queue.push(imports[i].clone());
                assert(names(self.queue@) =~= names(q0).push(imports@[i as int]@));
                assert(names(self.queue@).skip(self.head as int) =~= names(q0).skip(self.head as int).push(imports@[i as int]@));
            }
            i += 1;
        }
        assert(names(imports@).take(imports@.len() as int) =~= names(imports@));
    }
}

/// The modules in the order they are compiled: those loaded for imports, the last loaded
/// first, then the main module.
pub fn module_order(loaded: Vec<Module>, main: Module) -> (r: Vec<Module>)
    ensures
        r@ == loaded@.reverse().push(main),
{
    let mut r: Vec<Module> = Vec::new();
    let mut rest = loaded;
    let ghost orig = rest@;
    while rest.len() > 0
        invariant
            r@ + rest@.reverse() == orig.reverse(),
        decreases rest.len(),
    {
        let ghost before = rest@;
        let m = rest.pop().unwrap();
        assert(before.reverse() =~= seq![m] + rest@.reverse());
        r.push(m);
        assert(r@ + rest@.reverse() =~= orig.reverse());
    }
    assert(rest@.reverse() =~= Seq::<Module>::empty());
    assert(r@ =~= orig.reverse());
    r.push(main);
    r
}

} // verus!
