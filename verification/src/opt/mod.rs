//! Optimization passes over the intermediate representation: the interface of a pass, the pass
//! that does nothing, and the combinators that run passes in turn or on each function.
use vstd::prelude::*;

pub mod opt_utils;

use crate::ir::{Declaration, FunctionDefinition, TranslationUnit};

verus! {

/// A pass over code of type `T`: it may change the code, and tells whether it did.
///
/// A pass may state, in `optimizes`, how a run changes the pass and the code and what it
/// returns.
pub trait Optimize<T> {
    /// Whether a run of pass `self` on `code` may leave the pass as `after` and the code as
    /// `code_after`, returning `changed`. A pass that does not state it allows any run.
    open spec fn optimizes(&self, code: T, after: &Self, code_after: T, changed: bool) -> bool {
        true
    }

    fn optimize(&mut self, code: &mut T) -> (changed: bool)
        ensures
            old(self).optimizes(*old(code), &*final(self), *final(code), changed),
    ;
}

/// The passes of the lowest optimization level: none.
pub type O0 = Null;

/// The pass that changes nothing.
#[derive(Default, Clone, Copy, Debug)]
pub struct Null;

impl Optimize<TranslationUnit> for Null {
    /// A run changes nothing, and says so.
    open spec fn optimizes(
        &self,
        code: TranslationUnit,
        after: &Self,
        code_after: TranslationUnit,
        changed: bool,
    ) -> bool {
        !changed && code_after == code
    }

    /// Leaves the program as it is.
    fn optimize(&mut self, code: &mut TranslationUnit) -> (r: bool)
        ensures
            !r,
            *final(code) == *old(code),
    {
        false
    }
}

impl<T, O1: Optimize<T>, O2: Optimize<T>> Optimize<T> for (O1, O2) {
    /// A run of the first pass, then one of the second on what the first left; the pair
    /// changed the code where either did.
    open spec fn optimizes(&self, code: T, after: &Self, code_after: T, changed: bool) -> bool {
        exists|mid: T, first: bool, second: bool|
            #![trigger self.0.optimizes(code, &after.0, mid, first), self.1.optimizes(mid, &after.1, code_after, second)]
            self.0.optimizes(code, &after.0, mid, first) && self.1.optimizes(mid, &after.1, code_after, second)
                && changed == (first || second)
    }

    /// Runs the first pass, then the second; whether either changed the code.
    fn optimize(&mut self, code: &mut T) -> bool {
        let ghost start = *self;
        let ghost code_start = *code;
        let first = self.0.optimize(code);
        let ghost mid = *code;
        let ghost first_after = self.0;
        let second = self.1.optimize(code);
        assert(start.0.optimizes(code_start, &self.0, mid, first));
        assert(start.1.optimizes(mid, &self.1, *code, second));
        first || second
    }
}

/// A pass run again and again while it changes the code, at most `limit` times after the
/// first run.
#[derive(Debug)]
pub struct Repeat<O> {
    inner: O,
    limit: usize,
}

impl<O> Repeat<O> {
    /// `inner` repeated at most `limit` times after its first run.
    pub fn new(inner: O, limit: usize) -> (r: Self)
        ensures
            r.pass() == inner,
            r.limit() == limit,
    {
        Repeat { inner, limit }
    }

    /// The pass that is repeated.
    pub closed spec fn pass(&self) -> O {
        self.inner
    }

    /// How many runs may follow the first.
    pub closed spec fn limit(&self) -> usize {
        self.limit
    }
}

/// Runs of pass `p` from `code`, one after the other while each changes the code, at most
/// `fuel` of them, end with the pass as `p_after` and the code as `code_after`.
pub open spec fn repeated<T, O: Optimize<T>>(p: O, code: T, p_after: O, code_after: T, fuel: nat) -> bool
    decreases fuel,
{
    if fuel == 0 {
        p_after == p && code_after == code
    } else {
        exists|q: O, mid: T, changed: bool|
            #[trigger] p.optimizes(code, &q, mid, changed) && if changed {
                repeated(q, mid, p_after, code_after, (fuel - 1) as nat)
            } else {
                p_after == q && code_after == mid
            }
    }
}

impl<T, O: Optimize<T>> Optimize<T> for Repeat<O> {
    /// A first run of the pass; where it changed the code, further runs while they change it,
    /// at most the limit of them. The code changed where the first run changed it.
    open spec fn optimizes(&self, code: T, after: &Self, code_after: T, changed: bool) -> bool {
        &&& after.limit() == self.limit()
        &&& exists|q: O, mid: T|
            #[trigger] self.pass().optimizes(code, &q, mid, changed) && if changed {
                repeated(q, mid, after.pass(), code_after, self.limit() as nat)
            } else {
                after.pass() == q && code_after == mid
            }
    }

    /// Runs the pass; where it changed the code, runs it again while it changes it, at most the
    /// limit of times.
    fn optimize(&mut self, code: &mut T) -> bool {
        let ghost start = *self;
        let ghost code_start = *code;
        if !self.inner.optimize(code) {
            assert(start.pass().optimizes(code_start, &self.inner, *code, false));
            return false;
        }
        let ghost q0 = self.inner;
        let ghost mid0 = *code;
        assert(start.pass().optimizes(code_start, &q0, mid0, true));
        let mut n: usize = 0;
        loop
            invariant_except_break
                n <= self.limit,
                forall|pa: O, ca: T|
                    #[trigger] repeated(self.inner, *code, pa, ca, (self.limit - n) as nat) ==> repeated(
                        q0,
                        mid0,
                        pa,
                        ca,
                        start.limit as nat,
                    ),
            invariant
                self.limit == start.limit,
            ensures
                repeated(q0, mid0, self.inner, *code, start.limit as nat),
            decreases self.limit - n,
        {
            if n >= self.limit {
                proof {
                    assert(repeated(self.inner, *code, self.inner, *code, 0));
                }
                break;
            }
            let ghost p_before = self.inner;
            let ghost c_before = *code;
            let ghost fuel = (self.limit - n) as nat;
            let changed = self.inner.optimize(code);
            proof {
                assert(p_before.optimizes(c_before, &self.inner, *code, changed));
            }
            if !changed {
                proof {
                    lemma_repeated_stop(p_before, c_before, self.inner, *code, fuel);
                }
                break;
            }
            proof {
                assert forall|pa: O, ca: T| #[trigger] repeated(self.inner, *code, pa, ca, (fuel - 1) as nat) implies repeated(
                    q0,
                    mid0,
                    pa,
                    ca,
                    start.limit as nat,
                ) by {
                    lemma_repeated_step(p_before, c_before, self.inner, *code, pa, ca, fuel);
                }
            }
            n = n + 1;
            assert((self.limit - n) as nat == (fuel - 1) as nat);
        }
        true
    }
}

/// A run that changes the code, followed by runs that end as stated, ends as stated.
proof fn lemma_repeated_step<T, O: Optimize<T>>(p: O, code: T, q: O, mid: T, pa: O, ca: T, fuel: nat)
    requires
        fuel > 0,
        p.optimizes(code, &q, mid, true),
        repeated(q, mid, pa, ca, (fuel - 1) as nat),
    ensures
        repeated(p, code, pa, ca, fuel),
{
}

/// A run that does not change the code ends the runs.
proof fn lemma_repeated_stop<T, O: Optimize<T>>(p: O, code: T, q: O, mid: T, fuel: nat)
    requires
        fuel > 0,
        p.optimizes(code, &q, mid, false),
    ensures
        repeated(p, code, q, mid, fuel),
{
}

/// A pass over function bodies, run on each function of a program.
#[derive(Default, Debug)]
pub struct FunctionPass<T: Optimize<FunctionDefinition>> {
    inner: T,
}

impl<T: Optimize<FunctionDefinition>> FunctionPass<T> {
    /// The pass run on each function body.
    pub closed spec fn pass(&self) -> T {
        self.inner
    }
}

/// A run of pass `pass` on a declaration, which leaves the pass as `pass_after` and the
/// declaration as `after`, returning `changed`: on the body of a defined function, which keeps
/// its signature and stays defined; any other declaration, and the pass, are left as they are.
pub open spec fn pass_on_declaration<P: Optimize<FunctionDefinition>>(
    pass: P,
    decl: Declaration,
    pass_after: P,
    after: Declaration,
    changed: bool,
) -> bool {
    match decl {
        Declaration::Function { signature, definition: Some(body) } => exists|body_after: FunctionDefinition|
            #[trigger] pass.optimizes(body, &pass_after, body_after, changed) && after == (Declaration::Function {
                signature,
                definition: Some(body_after),
            }),
        _ => !changed && after == decl && pass_after == pass,
    }
}

impl<T: Optimize<FunctionDefinition>> Optimize<Declaration> for FunctionPass<T> {
    /// A run of the inner pass on the body of a defined function; see `pass_on_declaration`.
    open spec fn optimizes(&self, code: Declaration, after: &Self, code_after: Declaration, changed: bool) -> bool {
        pass_on_declaration(self.pass(), code, after.pass(), code_after, changed)
    }

    /// Runs the inner pass on the body of a defined function; other declarations are left as
    /// they are, and are not changed.
    fn optimize(&mut self, code: &mut Declaration) -> (r: bool) {
        let ghost start = self.inner;
        match code.get_function_mut() {
            Some((_, definition)) => match definition {
                Some(fdef) => {
                    let ghost body = *fdef;
                    let r = self.inner.optimize(fdef);
                    assert(start.optimizes(body, &self.inner, *fdef, r));
                    r
                },
                None => false,
            },
            None => false,
        }
    }
}

/// Runs of a pass over function bodies on each declaration of `before` in turn, from the pass
/// `passes[0]` on, each run leaving the pass `passes[i + 1]` for the next, declaration `i` as
/// `after[i]` and returning `changes[i]`.
pub open spec fn pass_on_declarations<P: Optimize<FunctionDefinition>>(
    passes: Seq<P>,
    before: Seq<(String, Declaration)>,
    after: Seq<(String, Declaration)>,
    changes: Seq<bool>,
) -> bool {
    &&& passes.len() == before.len() + 1
    &&& after.len() == before.len()
    &&& changes.len() == before.len()
    &&& forall|i: int|
        #![trigger after[i]]
        0 <= i < before.len() ==> after[i].0 == before[i].0 && pass_on_declaration(
            passes[i],
            before[i].1,
            passes[i + 1],
            after[i].1,
            changes[i],
        )
}

impl<T: Optimize<FunctionDefinition>> Optimize<TranslationUnit> for FunctionPass<T> {
    /// Runs of the inner pass on each declaration in order (see `pass_on_declaration`); the
    /// program changed where one of them did. The names, the order of declarations and the
    /// struct types stay.
    open spec fn optimizes(
        &self,
        code: TranslationUnit,
        after: &Self,
        code_after: TranslationUnit,
        changed: bool,
    ) -> bool {
        &&& code_after.structs == code.structs
        &&& exists|passes: Seq<T>, changes: Seq<bool>|
            #![trigger pass_on_declarations(passes, code.decls.spec_entries(), code_after.decls.spec_entries(), changes)]
            pass_on_declarations(passes, code.decls.spec_entries(), code_after.decls.spec_entries(), changes)
                && passes[0] == self.pass() && passes.last() == after.pass() && changed == changes.contains(true)
    }

    /// Runs the inner pass on the body of each defined function, in the order of declaration;
    /// whether it changed any. The names, the order of declarations and the struct types stay.
    fn optimize(&mut self, code: &mut TranslationUnit) -> (r: bool)
        ensures
            old(code).decls.wf() ==> final(code).decls.wf(),
    {
        let mut changed = false;
        let mut i: usize = 0;
        let ghost mut passes: Seq<T> = seq![self.inner];
        let ghost mut changes: Seq<bool> = seq![];
        while i < code.decls.len()
            invariant
                code.structs == old(code).structs,
                old(code).decls.wf() ==> code.decls.wf(),
                code.decls.spec_entries().len() == old(code).decls.spec_entries().len(),
                i <= code.decls.spec_entries().len(),
                passes.len() == i + 1,
                changes.len() == i,
                passes[0] == old(self).pass(),
                passes[i as int] == self.pass(),
                changed == changes.contains(true),
                forall|k: int|
                    #![trigger code.decls.spec_entries()[k]]
                    0 <= k < i ==> code.decls.spec_entries()[k].0 == old(code).decls.spec_entries()[k].0
                        && pass_on_declaration(
                        passes[k],
                        old(code).decls.spec_entries()[k].1,
                        passes[k + 1],
                        code.decls.spec_entries()[k].1,
                        changes[k],
                    ),
                forall|k: int|
                    #![trigger code.decls.spec_entries()[k]]
                    i <= k < code.decls.spec_entries().len() ==> code.decls.spec_entries()[k]
                        == old(code).decls.spec_entries()[k],
            decreases code.decls.spec_entries().len() - i,
        {
            let ghost before = code.decls.spec_entries();
            let ghost pass_before = self.inner;
            let decl = code.decls.value_mut(i);
            let c = self.optimize(decl);
            proof {
                let new_passes = passes.push(self.inner);
                let new_changes = changes.push(c);
                assert(new_changes.contains(true) == (changes.contains(true) || c)) by {
                    if c {
                        assert(new_changes[i as int] == true);
                    }
                    if changes.contains(true) {
                        let k = choose|k: int| 0 <= k < changes.len() && changes[k] == true;
                        assert(new_changes[k] == true);
                    }
                    if new_changes.contains(true) {
                        let k = choose|k: int| 0 <= k < new_changes.len() && new_changes[k] == true;
                        if k < i {
                            assert(changes[k] == true);
                        }
                    }
                }
                assert forall|k: int|
                    #![trigger code.decls.spec_entries()[k]]
                    0 <= k < code.decls.spec_entries().len() && k != i implies code.decls.spec_entries()[k]
                    == before[k] by {}
                assert forall|k: int|
                    #![trigger code.decls.spec_entries()[k]]
                    0 <= k < i + 1 implies code.decls.spec_entries()[k].0 == old(code).decls.spec_entries()[k].0
                        && pass_on_declaration(
                        new_passes[k],
                        old(code).decls.spec_entries()[k].1,
                        new_passes[k + 1],
                        code.decls.spec_entries()[k].1,
                        new_changes[k],
                    ) by {
                    if k < i {
                        assert(code.decls.spec_entries()[k] == before[k]);
                    }
                }
                passes = new_passes;
                changes = new_changes;
            }
            changed = changed || c;
            i = i + 1;
        }
        proof {
            assert(pass_on_declarations(
                passes,
                old(code).decls.spec_entries(),
                code.decls.spec_entries(),
                changes,
            ));
        }
        changed
    }
}

} // verus!
