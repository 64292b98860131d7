//! The hook trait and the chain-invocation engine.
//!
//! A dispatch walks a record's hook list front to back with a cursor. The
//! hook at the cursor runs with the call's arguments and a [`HookChain`]
//! continuation; every invocation of that continuation resumes traversal at
//! the slot right after the hook's own, so a hook may run the rest of the
//! chain zero, one, or many times without skipping or repeating other slots.
//! When the cursor passes the end of the list, the original function runs.

use crate::registry::HookableFuncMetadata;
use crate::sig::SigTag;
use vstd::prelude::*;

verus! {

/// An interceptor around a hookable function.
///
/// `Args` is the target's argument tuple and `Result` its result type; both
/// must match the target's, which [`add_hook`](crate::registry::HookableFuncMetadata::add_hook)
/// checks through the signature tag before an interceptor ever runs.
pub trait Hook: Sized {
    /// Argument tuple of the target function.
    type Args;

    /// Result type of the target function.
    type Result;

    /// The signature tag this hook was built for, as a specification value.
    spec fn sig_spec(&self) -> SigTag;

    /// The signature tag this hook was built for.
    fn sig(&self) -> (t: SigTag)
        ensures
            t == self.sig_spec(),
    ;

    /// Run the hook on `args`; `next` continues with the rest of the chain.
    ///
    /// The hook may invoke `next` any number of times, each time with
    /// arguments of its choosing, or not at all.
    fn call<F: Fn(Self::Args) -> Self::Result>(
        &self,
        args: Self::Args,
        next: &HookChain<'_, Self, Self::Args, Self::Result, F>,
    ) -> Self::Result
        requires
            next.wf(),
    ;
}

/// One slot of a record's hook list.
pub struct HookEntry<H> {
    /// The interceptor itself.
    pub hook: H,
    /// Identity of this slot, unique within its record; removal goes by it.
    pub id: u64,
    /// Ordering rank; greater priorities run earlier.
    pub priority: i32,
}

/// A continuation handle: the rest of one dispatch's hook chain, followed by
/// the original function.
///
/// `A` and `R` are the target's argument tuple and result type; wherever a
/// chain is built they coincide with `H::Args` and `H::Result`.
#[verifier::reject_recursive_types(A)]
#[verifier::reject_recursive_types(R)]
pub struct HookChain<'a, H, A, R, F: Fn(A) -> R> {
    entries: &'a Vec<HookEntry<H>>,
    pos: usize,
    orig: &'a F,
    shape: core::marker::PhantomData<(A, R)>,
}

impl<'a, H, A, R, F: Fn(A) -> R> HookChain<'a, H, A, R, F> {
    /// The chain may be invoked: its cursor is in bounds and the original
    /// function accepts any argument tuple.
    pub closed spec fn wf(&self) -> bool {
        &&& self.pos <= self.entries@.len()
        &&& forall|a: A| call_requires(*self.orig, (a,))
    }

    /// How many hook slots remain ahead of this chain's cursor.
    pub closed spec fn remaining(&self) -> nat {
        (self.entries@.len() - self.pos) as nat
    }

    /// Valid input/output pairs of the original function.
    pub closed spec fn orig_ensures(&self, args: A, r: R) -> bool {
        call_ensures(*self.orig, (args,), r)
    }
}

impl<'a, H: Hook, F: Fn(H::Args) -> H::Result> HookChain<'a, H, H::Args, H::Result, F> {
    /// Run the rest of the chain on `args`: the hooks after this chain's
    /// cursor in list order, then the original function.
    ///
    /// A chain that has no hook slots left runs the original function alone,
    /// so the result is one the original function can return for `args`.
    pub fn invoke(&self, args: H::Args) -> (r: H::Result)
        requires
            self.wf(),
        ensures
            self.remaining() == 0 ==> self.orig_ensures(args, r),
    {
        dispatch_from(self.entries, self.pos, self.orig, args)
    }
}

/// Call a hookable function with its hooks.
///
/// Runs `meta`'s hook list front to back — greatest priority first, newest
/// first among equal priorities — starting the cursor at zero with the
/// call's own arguments; `func`, the original function, runs when the
/// chain is exhausted. With no hooks attached the result is exactly one
/// the original function can return for `args`.
///
/// `func` must accept any argument tuple, since each hook chooses what it
/// passes on.
pub fn call_with_hook<H: Hook, F: Fn(H::Args) -> H::Result>(
    func: &F,
    meta: &HookableFuncMetadata<H>,
    args: H::Args,
) -> (r: H::Result)
    requires
        forall|a: H::Args| call_requires(*func, (a,)),
    ensures
        meta.spec_hooks().len() == 0 ==> call_ensures(*func, (args,), r),
{
    dispatch_from(meta.hook_entries(), 0, func, args)
}

/// The conditional a call site places at the top of a hookable function:
/// when the fast-path flag is clear the original body runs directly, with
/// no dispatch overhead beyond the flag read; otherwise the dispatch
/// engine runs the chain.
///
/// With zero hooks attached — equivalently, on a well-formed record, with
/// the flag clear — the result is exactly one the original function can
/// return for `args`.
pub fn call_hookable<H: Hook, F: Fn(H::Args) -> H::Result>(
    func: &F,
    meta: &HookableFuncMetadata<H>,
    args: H::Args,
) -> (r: H::Result)
    requires
        meta.wf(),
        forall|a: H::Args| call_requires(*func, (a,)),
    ensures
        meta.spec_hooks().len() == 0 ==> call_ensures(*func, (args,), r),
{
    if !meta.fast_path() {
        func(args)
    } else {
        call_with_hook(func, meta, args)
    }
}

/// Traversal from `pos`: run `entries[pos]` with a continuation for the
/// slots after it, or `orig` once the cursor is past the end.
fn dispatch_from<H: Hook, F: Fn(H::Args) -> H::Result>(
    entries: &Vec<HookEntry<H>>,
    pos: usize,
    orig: &F,
    args: H::Args,
) -> (r: H::Result)
    requires
        pos <= entries@.len(),
        forall|a: H::Args| call_requires(*orig, (a,)),
    ensures
        pos == entries@.len() ==> call_ensures(*orig, (args,), r),
    decreases entries@.len() - pos,
{
    if pos < entries.len() {
        let chain = HookChain { entries, pos: pos + 1, orig, shape: core::marker::PhantomData };
        let e = &entries[pos];
        e.hook.call(args, &chain)
    } else {
        orig(args)
    }
}

} // verus!
