//! Loading the modules of a project, starting from `main`: which module file
//! to read next and what follows from each source that was read. Reading the
//! files is left to the caller, which hands each source back.

#![verifier::loop_isolation(false)]

use crate::syntax::{module_dependencies, source_dependencies};
use crate::text::{
    ascii_alphabetic, ascii_alphanumeric, concat2, is_ascii_alphabetic, is_ascii_alphanumeric,
    owned, pair_views, str_eq, string_views,
};
use vstd::prelude::*;

verus! {

/// A character that may follow `/` or start a module path.
pub open spec fn part_start(c: char) -> bool {
    is_ascii_alphabetic(c) || c == '_'
}

/// A module path: `/`-separated parts, each an ASCII letter or `_` followed
/// by ASCII letters, digits and `_`.
pub open spec fn valid_module_path(m: Seq<char>) -> bool {
    &&& m.len() > 0
    &&& m.last() != '/'
    &&& forall|i: int| 0 <= i < m.len() ==> {
        &&& (is_ascii_alphanumeric(#[trigger] m[i]) || m[i] == '_' || m[i] == '/')
        &&& (i == 0 || m[i - 1] == '/') ==> part_start(m[i])
    }
}

/// Whether `module` is a valid module path.
pub fn is_module_path(module: &str) -> (r: bool)
    ensures
        r == valid_module_path(module@),
{
    let chars = crate::text::chars_of(module);
    let n = chars.len();
    if n == 0 || chars[n - 1] == '/' {
        return false;
    }
    let mut i: usize = 0;
    while i < n
        invariant
            chars@ == module@,
            n == chars.len(),
            n > 0,
            chars@[n - 1] != '/',
            i <= n,
            forall|k: int| 0 <= k < i ==> {
                &&& (is_ascii_alphanumeric(#[trigger] chars@[k]) || chars@[k] == '_' || chars@[k] == '/')
                &&& (k == 0 || chars@[k - 1] == '/') ==> part_start(chars@[k])
            },
        decreases n - i,
    {
        let c = chars[i];
        if !(ascii_alphanumeric(c) || c == '_' || c == '/') {
            return false;
        }
        if (i == 0 || chars[i - 1] == '/') && !(ascii_alphabetic(c) || c == '_') {
            return false;
        }
        i = i + 1;
    }
    true
}

/// A module whose source was read and whose dependencies are being loaded.
pub struct Frame {
    pub module: String,
    pub source: String,
    pub path: String,
    pub dependencies: Vec<String>,
    pub next: usize,
}

/// What the caller does next.
pub enum LoadStep {
    /// Read the source of this module (`""` is `main`) and hand it back.
    Read(String),
    /// Every module is loaded: pairs of a module path and its source, each
    /// module after the modules it imports, `main` last.
    Done(Vec<(String, String)>),
    /// Loading failed with this message.
    Failed(String),
}

/// The loading of a project's modules: the chain of modules whose
/// dependencies are being loaded, the module waiting to be read, and the
/// modules loaded so far with the dependencies that each one declared.
pub struct ModuleLoader {
    pub stack: Vec<Frame>,
    pub pending: Option<String>,
    pub loaded: Vec<(String, String)>,
    pub imports: Ghost<Seq<Seq<Seq<char>>>>,
    pub positions: Ghost<Seq<Seq<int>>>,
    pub failure: Option<String>,
}

/// The modules of the loaded pairs.
pub open spec fn modules_of(loaded: Seq<(String, String)>) -> Seq<Seq<char>> {
    loaded.map_values(|p: (String, String)| p.0@)
}

/// The modules that frames stand for, in order.
pub open spec fn frame_modules(stack: Seq<Frame>) -> Seq<Seq<char>> {
    stack.map_values(|f: Frame| f.module@)
}

/// Dependencies not yet begun, over all frames.
pub open spec fn remaining(stack: Seq<Frame>) -> nat
    decreases stack.len(),
{
    if stack.len() == 0 {
        0
    } else {
        remaining(stack.drop_last()) + (stack.last().dependencies@.len() - stack.last().next) as nat
    }
}

/// Each module in `order` comes after every module it imports.
pub open spec fn imports_first(order: Seq<Seq<char>>, imports: Seq<Seq<Seq<char>>>) -> bool {
    &&& imports.len() == order.len()
    &&& forall|i: int, d: int| 0 <= i < order.len() && 0 <= d < imports[i].len()
        ==> #[trigger] order_holds(order, imports, i, d)
}

/// Import `d` of the module at position `i` is loaded at an earlier position.
pub open spec fn order_holds(order: Seq<Seq<char>>, imports: Seq<Seq<Seq<char>>>, i: int, d: int) -> bool {
    exists|j: int| 0 <= j < i && order[j] == imports[i][d]
}

/// `main` or a valid module path.
pub open spec fn module_name(m: Seq<char>) -> bool {
    m.len() == 0 || valid_module_path(m)
}

impl ModuleLoader {
    /// The module whose loading the frame at position `k` waits on: that of
    /// the next frame, or the module waiting to be read.
    pub open spec fn awaited(&self, k: int) -> Option<Seq<char>> {
        if k + 1 < self.stack.len() {
            Some(self.stack[k + 1].module@)
        } else {
            match self.pending {
                Some(m) => Some(m@),
                None => None,
            }
        }
    }

    /// The module that the top frame imports next, if any is left.
    pub open spec fn next_import(&self) -> Option<Seq<char>> {
        if self.stack.len() > 0 && self.stack@.last().next < self.stack@.last().dependencies.len() {
            Some(self.stack@.last().dependencies@[self.stack@.last().next as int]@)
        } else {
            None
        }
    }

    /// Whether `m` is the message of refusing the top frame's next import,
    /// a module not loaded yet: one that is already being loaded further
    /// down the chain (the message names the cycle, from that module to
    /// itself), or one that is no module path.
    pub open spec fn refusal(&self, m: Seq<char>) -> bool {
        match self.next_import() {
            Some(d) => !self.is_loaded(d) && ((exists|s: int|
                0 <= s < self.stack.len() && #[trigger] frame_modules(self.stack@)[s] == d && m
                    == cycle_text(frame_modules(self.stack@).subrange(s, self.stack.len() as int).push(d)))
                || (d.len() != 0 && !valid_module_path(d) && !frame_modules(self.stack@).contains(d)
                && m == invalid_path_text(d))),
            None => false,
        }
    }

    /// Whether module `m` is loaded.
    pub open spec fn is_loaded(&self, m: Seq<char>) -> bool {
        modules_of(self.loaded@).contains(m)
    }

    /// The invariant of the loader.
    pub open spec fn wf(&self) -> bool {
        &&& modules_of(self.loaded@).no_duplicates()
        &&& placed(modules_of(self.loaded@), self.imports@, self.positions@)
        &&& forall|i: int| 0 <= i < self.loaded.len() ==> module_name(#[trigger] self.loaded@[i].0@)
        &&& frame_modules(self.stack@).no_duplicates()
        &&& forall|k: int| 0 <= k < self.stack.len() ==> {
            let f = #[trigger] self.stack@[k];
            &&& f.next <= f.dependencies.len()
            &&& module_name(f.module@)
            &&& !self.is_loaded(f.module@)
            &&& self.failure is None ==> forall|d: int| 0 <= d < f.next ==> self.is_loaded(#[trigger] f.dependencies@[d]@)
                || (d == f.next - 1 && self.awaited(k) == Some(f.dependencies@[d]@))
        }
        &&& self.pending is Some ==> {
            let p = self.pending.unwrap()@;
            &&& module_name(p)
            &&& !self.is_loaded(p)
            &&& !frame_modules(self.stack@).contains(p)
        }
        &&& self.stack.len() == 0 && self.pending is None && self.failure is None ==> self.loaded.len() > 0
            && self.loaded@.last().0@ == Seq::<char>::empty()
        &&& self.stack.len() > 0 ==> self.stack@[0].module@ == Seq::<char>::empty()
        &&& self.stack.len() == 0 && self.pending is Some ==> self.pending.unwrap()@ == Seq::<char>::empty() && self.loaded.len() == 0
    }

    /// A loader that starts with `main`.
    pub fn new() -> (r: ModuleLoader)
        ensures
            r.wf(),
            r.pending matches Some(m) && m@ == Seq::<char>::empty(),
            r.failure is None,
    {
        let ghost none: Seq<Seq<Seq<char>>> = Seq::empty();
        let ghost nowhere: Seq<Seq<int>> = Seq::empty();
        let r = ModuleLoader {
            stack: Vec::new(),
            pending: Some(String::new()),
            loaded: Vec::new(),
            imports: Ghost(none),
            positions: Ghost(nowhere),
            failure: None,
        };
        assert(modules_of(r.loaded@) =~= seq![]);
        assert(frame_modules(r.stack@) =~= seq![]);
        r
    }
}

/// The modules joined with ` -> ` between them.
pub open spec fn chain_text(modules: Seq<Seq<char>>) -> Seq<char>
    decreases modules.len(),
{
    if modules.len() == 0 {
        seq![]
    } else if modules.len() == 1 {
        modules[0]
    } else {
        chain_text(modules.drop_last()) + " -> "@ + modules.last()
    }
}

/// The message of a module that imports itself through `chain`.
pub open spec fn cycle_text(chain: Seq<Seq<char>>) -> Seq<char> {
    "circular pack dependency: "@ + chain_text(chain)
}

/// The message of an import that is no module path.
pub open spec fn invalid_path_text(module: Seq<char>) -> Seq<char> {
    "invalid module path '"@ + module + "'"@
}

/// The message of a module file that could not be read.
pub open spec fn unreadable_text(module: Seq<char>, path: Seq<char>, error: Seq<char>) -> Seq<char> {
    "could not load module '"@ + (if module.len() == 0 { "main"@ } else { module }) + "': "@ + path + ": "@ + error
}

fn chain_message(stack: &Vec<Frame>, start: usize, module: &str) -> (r: String)
    requires
        start < stack.len(),
    ensures
        r@ == cycle_text(frame_modules(stack@).subrange(start as int, stack.len() as int).push(module@)),
{
    let mut text = owned("circular pack dependency: ");
    let ghost head = "circular pack dependency: "@;
    let mut i = start;
    while i < stack.len()
        invariant
            start <= i <= stack.len(),
            i > start ==> text@ == head + chain_text(frame_modules(stack@).subrange(start as int, i as int)),
            i == start ==> text@ == head,
        decreases stack.len() - i,
    {
        let ghost before = frame_modules(stack@).subrange(start as int, i as int);
        if i > start {
            text.append(" -> ");
        }
        text.append(stack[i].module.as_str());
        proof {
            let after = frame_modules(stack@).subrange(start as int, i + 1);
            assert(after.drop_last() =~= before);
            assert(after.last() == stack@[i as int].module@);
            if i == start {
                assert(chain_text(after) == after[0]);
            }
        }
        i = i + 1;
    }
    let ghost all = frame_modules(stack@).subrange(start as int, stack.len() as int);
    text.append(" -> ");
    text.append(module);
    proof {
        assert(all.push(module@).drop_last() =~= all);
    }
    text
}

/// Where each import of each loaded module stands in the load order: an
/// earlier position holding that module.
pub open spec fn placed(order: Seq<Seq<char>>, imports: Seq<Seq<Seq<char>>>, positions: Seq<Seq<int>>) -> bool {
    &&& imports.len() == order.len()
    &&& positions.len() == order.len()
    &&& forall|i: int| 0 <= i < order.len() ==> (#[trigger] positions[i]).len() == imports[i].len()
    &&& forall|i: int, d: int| 0 <= i < order.len() && 0 <= d < imports[i].len() ==> {
        &&& 0 <= #[trigger] positions[i][d] < i
        &&& order[positions[i][d]] == imports[i][d]
    }
}

proof fn lemma_placed_push(
    order: Seq<Seq<char>>,
    imports: Seq<Seq<Seq<char>>>,
    positions: Seq<Seq<int>>,
    module: Seq<char>,
    deps: Seq<Seq<char>>,
    found: Seq<int>,
)
    requires
        placed(order, imports, positions),
        found.len() == deps.len(),
        forall|d: int| 0 <= d < deps.len() ==> 0 <= #[trigger] found[d] < order.len() && order[found[d]] == deps[d],
    ensures
        placed(order.push(module), imports.push(deps), positions.push(found)),
{
    let o = order.push(module);
    let m = imports.push(deps);
    let p = positions.push(found);
    assert forall|i: int| 0 <= i < o.len() implies (#[trigger] p[i]).len() == m[i].len() by {
        if i < order.len() {
            assert(p[i] == positions[i]);
        }
    }
    assert forall|i: int, d: int| 0 <= i < o.len() && 0 <= d < m[i].len() implies {
        &&& 0 <= #[trigger] p[i][d] < i
        &&& o[p[i][d]] == m[i][d]
    } by {
        if i < order.len() {
            assert(p[i] == positions[i]);
            assert(m[i] == imports[i]);
            assert(0 <= positions[i][d] < i);
        } else {
            assert(p[i] == found);
            assert(m[i] == deps);
            assert(0 <= found[d] < order.len());
        }
    }
}

proof fn lemma_placed_imports_first(order: Seq<Seq<char>>, imports: Seq<Seq<Seq<char>>>, positions: Seq<Seq<int>>)
    requires
        placed(order, imports, positions),
    ensures
        imports_first(order, imports),
{
    assert forall|i: int, d: int| 0 <= i < order.len() && 0 <= d < imports[i].len()
        implies #[trigger] order_holds(order, imports, i, d) by {
        let j = positions[i][d];
        assert(0 <= j < i && order[j] == imports[i][d]);
    }
}

impl ModuleLoader {
    /// Hands back what reading the waiting module gave: its source, or the
    /// error (with the path that was tried). A source is scanned for the
    /// modules it imports, which are loaded next.
    pub fn provide(&mut self, path: &str, read: Result<String, String>)
        requires
            old(self).wf(),
            old(self).pending is Some,
            old(self).failure is None,
        ensures
            final(self).wf(),
            final(self).pending is None,
            read matches Err(e) ==> (final(self).failure matches Some(m)
                && m@ == unreadable_text(old(self).pending.unwrap()@, path@, e@)),
            read matches Ok(source) ==> match source_dependencies(source@) {
                Err(e) => final(self).failure matches Some(m) && m@ == path@ + ":"@ + e,
                Ok(dependencies) => {
                    &&& final(self).failure is None
                    &&& final(self).stack.len() == old(self).stack.len() + 1
                    &&& final(self).stack@.last().module@ == old(self).pending.unwrap()@
                    &&& final(self).stack@.last().source@ == source@
                    &&& string_views(final(self).stack@.last().dependencies@) == dependencies
                    &&& final(self).stack@.last().next == 0
                },
            },
    {
        let module = match self.pending.take() {
            Some(m) => m,
            None => {
                assert(false);
                String::new()
            },
        };
        let source = match read {
            Ok(source) => source,
            Err(error) => {
                let shown = if module.unicode_len() == 0 { owned("main") } else { owned(module.as_str()) };
                let mut m = owned("could not load module '");
                m.append(shown.as_str());
                m.append("': ");
                m.append(path);
                m.append(": ");
                m.append(error.as_str());
                self.failure = Some(m);
                return;
            },
        };
        match module_dependencies(source.as_str()) {
            Err(error) => {
                let message = concat2(path, concat2(":", error.as_str()).as_str());
                assert(message@ =~= path@ + ":"@ + error@);
                self.failure = Some(message);
            },
            Ok(dependencies) => {
                let ghost old_stack = self.stack@;
                self.stack.push(Frame { module, source, path: owned(path), dependencies, next: 0 });
                proof {
                    assert(frame_modules(self.stack@) =~= frame_modules(old_stack).push(self.stack@.last().module@));
                    assert forall|k: int| 0 <= k < self.stack.len() implies {
                        let f = #[trigger] self.stack@[k];
                        &&& f.next <= f.dependencies.len()
                        &&& module_name(f.module@)
                        &&& !self.is_loaded(f.module@)
                        &&& forall|d: int| 0 <= d < f.next ==> self.is_loaded(#[trigger] f.dependencies@[d]@)
                            || (d == f.next - 1 && self.awaited(k) == Some(f.dependencies@[d]@))
                    } by {
                        if k < old_stack.len() {
                            assert(self.stack@[k] == old_stack[k]);
                        }
                    }
                }
            },
        }
    }

    /// Says what the caller does next: read a module, take the loaded
    /// modules, or give up with a message.
    pub fn next_step(&mut self) -> (r: LoadStep)
        requires
            old(self).wf(),
        ensures
            r is Done || final(self).wf(),
            r matches LoadStep::Read(m) ==> final(self).pending matches Some(p) && p@ == m@
                && final(self).failure is None,
            r matches LoadStep::Done(pairs) ==> {
                &&& modules_of(pairs@).no_duplicates()
                &&& imports_first(modules_of(pairs@), final(self).imports@)
                &&& forall|i: int| 0 <= i < pairs.len() ==> module_name(#[trigger] pairs@[i].0@)
                &&& pairs.len() > 0 && pairs@.last().0@ == Seq::<char>::empty()
                &&& old(self).loaded@.is_prefix_of(pairs@)
            },
            r matches LoadStep::Failed(m) ==> (old(self).failure is Some && m@ == old(self).failure.unwrap()@)
                || (old(self).failure is None && final(self).refusal(m@)),
    {
        loop
            invariant
                self.wf(),
                old(self).loaded@.is_prefix_of(self.loaded@),
                old(self).failure is Some ==> self.failure == old(self).failure,
                old(self).failure is None && self.failure is Some ==> self.refusal(self.failure.unwrap()@),
            decreases remaining(self.stack@), self.stack.len(), if self.failure is None { 1nat } else { 0nat },
        {
            if let Some(f) = &self.failure {
                return LoadStep::Failed(owned(f.as_str()));
            }
            if let Some(p) = &self.pending {
                return LoadStep::Read(owned(p.as_str()));
            }
            if self.stack.len() == 0 {
                proof {
                    lemma_placed_imports_first(modules_of(self.loaded@), self.imports@, self.positions@);
                }
                let mut pairs: Vec<(String, String)> = Vec::new();
                core::mem::swap(&mut pairs, &mut self.loaded);
                return LoadStep::Done(pairs);
            }
            let top = self.stack.len() - 1;
            let ghost before = *self;
            if self.stack[top].next < self.stack[top].dependencies.len() {
                let next = self.stack[top].next;
                let dependency = owned(self.stack[top].dependencies[next].as_str());
                let mut already = false;
                let mut i: usize = 0;
                while i < self.loaded.len()
                    invariant
                        i <= self.loaded.len(),
                        already == exists|j: int| 0 <= j < i && modules_of(self.loaded@)[j] == dependency@,
                    decreases self.loaded.len() - i,
                {
                    assert(modules_of(self.loaded@)[i as int] == self.loaded@[i as int].0@);
                    if str_eq(self.loaded[i].0.as_str(), dependency.as_str()) {
                        already = true;
                    }
                    i = i + 1;
                }
                let mut on_stack: Option<usize> = None;
                let mut k: usize = 0;
                while k < self.stack.len()
                    invariant
                        k <= self.stack.len(),
                        on_stack matches Some(s) ==> s < self.stack.len() && frame_modules(self.stack@)[s as int] == dependency@,
                        on_stack is None ==> forall|j: int| 0 <= j < k ==> frame_modules(self.stack@)[j] != dependency@,
                    decreases self.stack.len() - k,
                {
                    assert(frame_modules(self.stack@)[k as int] == self.stack@[k as int].module@);
                    if on_stack.is_none() && str_eq(self.stack[k].module.as_str(), dependency.as_str()) {
                        on_stack = Some(k);
                    }
                    k = k + 1;
                }
                if !already {
                    if let Some(start) = on_stack {
                        let message = chain_message(&self.stack, start, dependency.as_str());
                        assert(self.next_import() == Some(dependency@));
                        self.failure = Some(message);
                        continue;
                    }
                    if dependency.unicode_len() != 0 && !is_module_path(dependency.as_str()) {
                        let message = concat2("invalid module path '", concat2(dependency.as_str(), "'").as_str());
                        assert(message@ =~= invalid_path_text(dependency@));
                        assert(self.next_import() == Some(dependency@));
                        assert(!frame_modules(self.stack@).contains(dependency@));
                        self.failure = Some(message);
                        continue;
                    }
                }
                let mut frame = self.stack.pop().unwrap();
                frame.next = next + 1;
                self.stack.push(frame);
                if !already {
                    self.pending = Some(dependency);
                }
                proof {
                    let old_stack = before.stack@;
                    assert(self.stack@ =~= old_stack.update(top as int, self.stack@[top as int]));
                    assert(frame_modules(self.stack@) =~= frame_modules(old_stack));
                    assert(self.stack@.drop_last() =~= old_stack.drop_last());
                    if !already {
                        assert(!modules_of(self.loaded@).contains(dependency@));
                        assert(!frame_modules(self.stack@).contains(dependency@));
                    } else {
                        let j = choose|j: int| 0 <= j < self.loaded.len() && modules_of(self.loaded@)[j] == dependency@;
                        assert(modules_of(self.loaded@).contains(dependency@));
                    }
                    assert forall|k: int| 0 <= k < self.stack.len() implies {
                        let f = #[trigger] self.stack@[k];
                        &&& f.next <= f.dependencies.len()
                        &&& module_name(f.module@)
                        &&& !self.is_loaded(f.module@)
                        &&& forall|d: int| 0 <= d < f.next ==> self.is_loaded(#[trigger] f.dependencies@[d]@)
                            || (d == f.next - 1 && self.awaited(k) == Some(f.dependencies@[d]@))
                    } by {
                        let f = self.stack@[k];
                        let g = old_stack[k];
                        assert(before.stack@[k] == g);
                        if k == top {
                            assert forall|d: int| 0 <= d < f.next implies self.is_loaded(#[trigger] f.dependencies@[d]@)
                                || (d == f.next - 1 && self.awaited(k) == Some(f.dependencies@[d]@)) by {
                                if d < g.next {
                                    assert(before.awaited(k) is None);
                                    assert(g.dependencies@[d] == f.dependencies@[d]);
                                }
                            }
                        } else {
                            assert(f == g);
                            assert(self.awaited(k) == before.awaited(k));
                        }
                    }
                    assert(self.wf());
                }
            } else {
                let frame = self.stack.pop().unwrap();
                let ghost popped = frame;
                self.loaded.push((frame.module, frame.source));
                let ghost views = popped.dependencies@.map_values(|d: String| d@);
                self.imports = Ghost(self.imports@.push(views));
                let ghost old_modules = modules_of(before.loaded@);
                let ghost found = Seq::new(views.len(), |d: int| choose|j: int| 0 <= j < old_modules.len() && old_modules[j] == views[d]);
                self.positions = Ghost(self.positions@.push(found));
                proof {
                    let old_stack = before.stack@;
                    assert(popped == old_stack[top as int]);
                    assert(self.stack@ =~= old_stack.drop_last());
                    assert(modules_of(self.loaded@) =~= old_modules.push(popped.module@));
                    assert(frame_modules(self.stack@) =~= frame_modules(old_stack).drop_last());
                    assert(frame_modules(old_stack)[top as int] == popped.module@);
                    assert forall|d: int| 0 <= d < views.len() implies 0 <= #[trigger] found[d] < old_modules.len()
                        && old_modules[found[d]] == views[d] by {
                        assert(before.awaited(top as int) is None);
                        assert(before.is_loaded(popped.dependencies@[d]@));
                        assert(views[d] == popped.dependencies@[d]@);
                        assert(old_modules.contains(views[d]));
                    }
                    let order = modules_of(self.loaded@);
                    lemma_placed_push(old_modules, before.imports@, before.positions@, popped.module@, views, found);
                    assert(order =~= old_modules.push(popped.module@));
                    assert forall|i: int| 0 <= i < self.loaded.len() implies module_name(#[trigger] self.loaded@[i].0@) by {
                        if i < before.loaded.len() {
                            assert(self.loaded@[i] == before.loaded@[i]);
                        }
                    }
                    assert forall|k: int| 0 <= k < self.stack.len() implies {
                        let f = #[trigger] self.stack@[k];
                        &&& f.next <= f.dependencies.len()
                        &&& module_name(f.module@)
                        &&& !self.is_loaded(f.module@)
                        &&& forall|d: int| 0 <= d < f.next ==> self.is_loaded(#[trigger] f.dependencies@[d]@)
                            || (d == f.next - 1 && self.awaited(k) == Some(f.dependencies@[d]@))
                    } by {
                        let f = self.stack@[k];
                        assert(f == old_stack[k]);
                        assert(frame_modules(old_stack)[k] == f.module@);
                        assert(f.module@ != popped.module@);
                        if self.is_loaded(f.module@) {
                            let j = choose|j: int| 0 <= j < order.len() && order[j] == f.module@;
                            if j < old_modules.len() {
                                assert(old_modules.contains(f.module@));
                            }
                        }
                        assert forall|d: int| 0 <= d < f.next implies self.is_loaded(#[trigger] f.dependencies@[d]@)
                            || (d == f.next - 1 && self.awaited(k) == Some(f.dependencies@[d]@)) by {
                            if before.is_loaded(f.dependencies@[d]@) {
                                let j = choose|j: int| 0 <= j < old_modules.len() && old_modules[j] == f.dependencies@[d]@;
                                assert(order[j] == old_modules[j]);
                            } else if k + 1 == top {
                                assert(before.awaited(k) == Some(popped.module@));
                                assert(order[old_modules.len() as int] == popped.module@);
                            } else {
                                assert(self.awaited(k) == before.awaited(k));
                            }
                        }
                    }
                    if self.stack.len() == 0 {
                        assert(top == 0);
                        assert(self.loaded@.last().0@ == popped.module@);
                    }
                    assert(self.wf());
                }
            }
        }
    }
}

} // verus!
