//! Hookable-function records and the process-wide name directory.
//!
//! A [`HookableFuncMetadata`] holds one target function's identity, its
//! opaque entry address, its signature tag, the fast-path flag and the
//! ordered hook list. The list is kept sorted by descending priority; among
//! entries of equal priority the most recently inserted sits earliest. The
//! fast-path flag is set exactly when the list is non-empty. A
//! [`HookableFuncRegistry`] maps names to records; lookups return the first
//! record whose name equals the query.

use crate::dispatch::Hook;
use crate::dispatch::HookEntry;
use crate::sig::SigTag;
use vstd::prelude::*;
use vstd::string::StringExecFns;

verus! {

/// Reported by `add_hook` when an interceptor's signature tag differs from
/// the record's; both tags are carried for diagnostics.
#[derive(Clone, Copy, PartialEq, Eq, Structural, Debug)]
pub struct SigMismatch {
    /// The record's tag: the signature of the target function.
    pub expected: SigTag,
    /// The rejected interceptor's tag.
    pub found: SigTag,
}

/// The hook list never puts a lower priority before a greater one.
pub open spec fn sorted_by_priority<H>(s: Seq<HookEntry<H>>) -> bool {
    forall|i: int, j: int| 0 <= i <= j < s.len() ==> s[i].priority >= s[j].priority
}

/// No two slots of the list share an identity.
pub open spec fn unique_ids<H>(s: Seq<HookEntry<H>>) -> bool {
    forall|i: int, j: int| 0 <= i < j < s.len() ==> s[i].id != s[j].id
}

/// Every slot identity lies below the record's identity counter.
pub open spec fn ids_below<H>(s: Seq<HookEntry<H>>, bound: u64) -> bool {
    forall|i: int| 0 <= i < s.len() ==> s[i].id < bound
}

/// Every stored interceptor was built for the record's signature: the
/// invariant that lets dispatch trust list membership without re-checking.
pub open spec fn entries_match_sig<H: Hook>(s: Seq<HookEntry<H>>, sig: SigTag) -> bool {
    forall|i: int| 0 <= i < s.len() ==> s[i].hook.sig_spec() == sig
}

/// Where a new entry of priority `p` goes: the index of the first existing
/// entry whose priority is at most `p`, or the length when there is none.
/// Inserting there keeps the list sorted and puts the newcomer before every
/// equal-priority entry already present.
pub open spec fn insert_pos<H>(s: Seq<HookEntry<H>>, p: i32) -> int
    decreases s.len(),
{
    if s.len() == 0 {
        0
    } else if s[0].priority <= p {
        0
    } else {
        1 + insert_pos(s.subrange(1, s.len() as int), p)
    }
}

/// The index of the first slot with identity `id`, or the length when the
/// identity is absent.
pub open spec fn find_id<H>(s: Seq<HookEntry<H>>, id: u64) -> int
    decreases s.len(),
{
    if s.len() == 0 {
        0
    } else if s[0].id == id {
        0
    } else {
        1 + find_id(s.subrange(1, s.len() as int), id)
    }
}

/// Some slot of the list has identity `id`.
pub open spec fn has_id<H>(s: Seq<HookEntry<H>>, id: u64) -> bool {
    exists|i: int| 0 <= i < s.len() && s[i].id == id
}

/// `insert_pos(s, p)` is the first index whose entry has priority at most
/// `p`; everything before it has strictly greater priority.
pub proof fn lemma_insert_pos_properties<H>(s: Seq<HookEntry<H>>, p: i32)
    ensures
        0 <= insert_pos(s, p) <= s.len(),
        forall|j: int| 0 <= j < insert_pos(s, p) ==> s[j].priority > p,
        insert_pos(s, p) < s.len() ==> s[insert_pos(s, p)].priority <= p,
    decreases s.len(),
{
    if s.len() == 0 {
    } else if s[0].priority <= p {
    } else {
        let sub = s.subrange(1, s.len() as int);
        lemma_insert_pos_properties(sub, p);
        assert forall|j: int| 0 <= j < insert_pos(s, p) implies s[j].priority > p by {
            if j > 0 {
                assert(s[j] == sub[j - 1]);
            }
        }
        if insert_pos(s, p) < s.len() {
            assert(s[insert_pos(s, p)] == sub[insert_pos(s, p) - 1]);
        }
    }
}

/// `find_id(s, id)` is the first index whose entry has identity `id`, and
/// `has_id` holds exactly when that index is in bounds.
pub proof fn lemma_find_id_properties<H>(s: Seq<HookEntry<H>>, id: u64)
    ensures
        0 <= find_id(s, id) <= s.len(),
        forall|j: int| 0 <= j < find_id(s, id) ==> s[j].id != id,
        find_id(s, id) < s.len() ==> s[find_id(s, id)].id == id,
        has_id(s, id) <==> find_id(s, id) < s.len(),
    decreases s.len(),
{
    if s.len() == 0 {
        assert(!has_id(s, id));
    } else if s[0].id == id {
    } else {
        let sub = s.subrange(1, s.len() as int);
        lemma_find_id_properties(sub, id);
        assert forall|j: int| 0 <= j < find_id(s, id) implies s[j].id != id by {
            if j > 0 {
                assert(s[j] == sub[j - 1]);
            }
        }
        if find_id(s, id) < s.len() {
            assert(s[find_id(s, id)] == sub[find_id(s, id) - 1]);
        }
        if has_id(s, id) {
            let i = choose|i: int| 0 <= i < s.len() && s[i].id == id;
            assert(i > 0);
            assert(sub[i - 1] == s[i]);
            assert(has_id(sub, id));
        }
        if has_id(sub, id) {
            let i = choose|i: int| 0 <= i < sub.len() && sub[i].id == id;
            assert(s[i + 1] == sub[i]);
            assert(has_id(s, id));
        }
    }
}

/// Law of insertion order: a new entry of priority `p` lands after every
/// existing entry with priority greater than `p`, before every existing
/// entry with priority at most `p` — so before every existing entry of
/// equal priority, which makes equal-priority slots run newest first — and
/// the list stays sorted by descending priority.
pub proof fn lemma_add_hook_ordering<H>(s: Seq<HookEntry<H>>, e: HookEntry<H>)
    requires
        sorted_by_priority(s),
    ensures
        ({
            let pos = insert_pos(s, e.priority);
            let t = s.insert(pos, e);
            &&& t.len() == s.len() + 1
            &&& t[pos] == e
            &&& forall|j: int| 0 <= j < pos ==> t[j] == s[j] && s[j].priority > e.priority
            &&& forall|j: int| pos <= j < s.len() ==> t[j + 1] == s[j] && s[j].priority
                <= e.priority
            &&& sorted_by_priority(t)
        }),
{
    let pos = insert_pos(s, e.priority);
    let t = s.insert(pos, e);
    lemma_insert_pos_properties(s, e.priority);
    s.insert_ensures(pos, e);
    assert forall|j: int| pos <= j < s.len() implies t[j + 1] == s[j] && s[j].priority
        <= e.priority by {
        assert(s[pos].priority <= e.priority);
        assert(s[pos].priority >= s[j].priority);
    }
    assert forall|i: int, j: int| 0 <= i <= j < t.len() implies t[i].priority
        >= t[j].priority by {
        if i < pos {
            assert(t[i] == s[i]);
        } else if i > pos {
            assert(t[i] == s[i - 1]);
        }
        if j < pos {
            assert(t[j] == s[j]);
        } else if j > pos {
            assert(t[j] == s[j - 1]);
        }
    }
}

/// Inserting a signature-checked entry that carries the counter's fresh
/// identity preserves every part of the record invariant.
proof fn lemma_insert_entry_wf<H: Hook>(s: Seq<HookEntry<H>>, e: HookEntry<H>, sig: SigTag)
    requires
        sorted_by_priority(s),
        unique_ids(s),
        ids_below(s, e.id),
        entries_match_sig(s, sig),
        e.id < u64::MAX,
        e.hook.sig_spec() == sig,
    ensures
        ({
            let t = s.insert(insert_pos(s, e.priority), e);
            &&& sorted_by_priority(t)
            &&& unique_ids(t)
            &&& ids_below(t, (e.id + 1) as u64)
            &&& entries_match_sig(t, sig)
        }),
{
    let pos = insert_pos(s, e.priority);
    let t = s.insert(pos, e);
    lemma_insert_pos_properties(s, e.priority);
    lemma_add_hook_ordering(s, e);
    s.insert_ensures(pos, e);
    assert forall|a: int, b: int| 0 <= a < b < t.len() implies t[a].id != t[b].id by {
        if a < pos {
            assert(t[a] == s[a]);
        } else if a > pos {
            assert(t[a] == s[a - 1]);
        }
        if b < pos {
            assert(t[b] == s[b]);
        } else if b > pos {
            assert(t[b] == s[b - 1]);
        }
    }
    assert forall|a: int| 0 <= a < t.len() implies t[a].id < e.id + 1 && t[a].hook.sig_spec()
        == sig by {
        if a < pos {
            assert(t[a] == s[a]);
        } else if a > pos {
            assert(t[a] == s[a - 1]);
        }
    }
}

/// Removing one entry preserves every part of the record invariant.
proof fn lemma_remove_entry_wf<H: Hook>(s: Seq<HookEntry<H>>, i: int, bound: u64, sig: SigTag)
    requires
        sorted_by_priority(s),
        unique_ids(s),
        ids_below(s, bound),
        entries_match_sig(s, sig),
        0 <= i < s.len(),
    ensures
        sorted_by_priority(s.remove(i)),
        unique_ids(s.remove(i)),
        ids_below(s.remove(i), bound),
        entries_match_sig(s.remove(i), sig),
{
    let t = s.remove(i);
    s.remove_ensures(i);
    assert forall|a: int, b: int| 0 <= a <= b < t.len() implies t[a].priority
        >= t[b].priority && (a < b ==> t[a].id != t[b].id) by {
        if a < i {
            assert(t[a] == s[a]);
        } else {
            assert(t[a] == s[a + 1]);
        }
        if b < i {
            assert(t[b] == s[b]);
        } else {
            assert(t[b] == s[b + 1]);
        }
    }
    assert forall|a: int| 0 <= a < t.len() implies t[a].id < bound && t[a].hook.sig_spec()
        == sig by {
        if a < i {
            assert(t[a] == s[a]);
        } else {
            assert(t[a] == s[a + 1]);
        }
    }
}

/// Per-target-function state: identity, original entry point, signature
/// tag, fast-path flag and the ordered hook list.
pub struct HookableFuncMetadata<H> {
    name: String,
    func: usize,
    sig: SigTag,
    fast_path_flag: bool,
    hooks: Vec<HookEntry<H>>,
    next_id: u64,
}

impl<H: Hook> HookableFuncMetadata<H> {
    /// The record's name.
    pub closed spec fn spec_name(&self) -> Seq<char> {
        self.name@
    }

    /// The opaque address of the original entry point.
    pub closed spec fn spec_func_ptr(&self) -> usize {
        self.func
    }

    /// The record's signature tag.
    pub closed spec fn spec_sig(&self) -> SigTag {
        self.sig
    }

    /// The fast-path flag.
    pub closed spec fn spec_flag(&self) -> bool {
        self.fast_path_flag
    }

    /// The hook list.
    pub closed spec fn spec_hooks(&self) -> Seq<HookEntry<H>> {
        self.hooks@
    }

    /// The identity the next inserted hook will receive.
    pub closed spec fn spec_next_id(&self) -> u64 {
        self.next_id
    }

    /// The record's invariant: the flag mirrors "hooks present", the list
    /// is ordered by descending priority, slot identities are unique and
    /// below the counter, and every stored interceptor matched the record's
    /// signature when it was admitted.
    pub open spec fn wf(&self) -> bool {
        &&& self.spec_flag() == (self.spec_hooks().len() > 0)
        &&& sorted_by_priority(self.spec_hooks())
        &&& unique_ids(self.spec_hooks())
        &&& ids_below(self.spec_hooks(), self.spec_next_id())
        &&& entries_match_sig(self.spec_hooks(), self.spec_sig())
    }

    /// Create a record for a target function: `name` is its identity in the
    /// directory, `func` the opaque address of its original entry point,
    /// `sig` the tag of its (result, argument-tuple) signature. The record
    /// starts with no hooks and a clear fast-path flag.
    pub fn new(name: String, func: usize, sig: SigTag) -> (m: Self)
        ensures
            m.wf(),
            m.spec_name() == name@,
            m.spec_func_ptr() == func,
            m.spec_sig() == sig,
            m.spec_hooks() == Seq::<HookEntry<H>>::empty(),
            !m.spec_flag(),
            m.spec_next_id() == 0,
    {
        HookableFuncMetadata {
            name,
            func,
            sig,
            fast_path_flag: false,
            hooks: Vec::new(),
            next_id: 0,
        }
    }

    /// The name of the hookable function.
    pub fn name(&self) -> (r: &str)
        ensures
            r@ == self.spec_name(),
    {
        self.name.as_str()
    }

    /// The opaque address of the original entry point, for diagnostics.
    pub fn func_ptr(&self) -> (r: usize)
        ensures
            r == self.spec_func_ptr(),
    {
        self.func
    }

    /// Non-blocking read of the fast-path flag: false exactly when the hook
    /// list is empty, so the call site may run the original body directly.
    pub fn fast_path(&self) -> (r: bool)
        ensures
            r == self.spec_flag(),
    {
        self.fast_path_flag
    }

    /// The hook list, earliest-running slot first.
    pub fn hook_entries(&self) -> (r: &Vec<HookEntry<H>>)
        ensures
            r@ == self.spec_hooks(),
    {
        &self.hooks
    }

    /// True when the record's name equals `key`.
    pub fn name_matches(&self, key: &String) -> (r: bool)
        ensures
            r == (self.spec_name() == key@),
    {
        self.name == *key
    }

    /// Everything `add_hook` promises, stated as a relation between the
    /// record before and after the call.
    ///
    /// A mismatched signature leaves the record untouched and reports both
    /// tags. A matching one inserts the interceptor at `insert_pos` — after
    /// every entry of greater priority, before every entry of equal or
    /// lower priority — under the identity the counter held, returns that
    /// identity, and sets the fast-path flag.
    pub open spec fn add_hook_ensures(
        pre: Self,
        post: Self,
        hook: H,
        priority: i32,
        r: Result<u64, SigMismatch>,
    ) -> bool {
        &&& post.spec_name() == pre.spec_name()
        &&& post.spec_func_ptr() == pre.spec_func_ptr()
        &&& post.spec_sig() == pre.spec_sig()
        &&& if hook.sig_spec() != pre.spec_sig() {
            &&& r == Result::<u64, SigMismatch>::Err(
                SigMismatch { expected: pre.spec_sig(), found: hook.sig_spec() },
            )
            &&& post == pre
        } else {
            &&& r == Result::<u64, SigMismatch>::Ok(pre.spec_next_id())
            &&& post.spec_next_id() == pre.spec_next_id() + 1
            &&& post.spec_hooks() == pre.spec_hooks().insert(
                insert_pos(pre.spec_hooks(), priority),
                HookEntry { hook, id: pre.spec_next_id(), priority },
            )
            &&& post.spec_flag()
        }
    }

    /// Attach `hook` to this record at `priority`; greater priorities run
    /// earlier, and among equal priorities the newest runs first.
    ///
    /// Fails with [`SigMismatch`], leaving the record unchanged, exactly
    /// when the interceptor's signature tag differs from the record's;
    /// otherwise returns the slot identity that [`Self::remove_hook`] takes.
    pub fn add_hook_with_priority(&mut self, hook: H, priority: i32) -> (r: Result<
        u64,
        SigMismatch,
    >)
        requires
            old(self).wf(),
            old(self).spec_next_id() < u64::MAX,
        ensures
            final(self).wf(),
            Self::add_hook_ensures(*old(self), *final(self), hook, priority, r),
    {
        let tag = hook.sig();
        if tag != self.sig {
            return Err(SigMismatch { expected: self.sig, found: tag });
        }
        let ghost s0 = self.hooks@;
        let ghost entry_spec = HookEntry { hook, id: self.next_id, priority };
        let mut i: usize = 0;
        while i < self.hooks.len() && self.hooks[i].priority > priority
            invariant
                i <= s0.len(),
                self.hooks@ == s0,
                forall|j: int| 0 <= j < i ==> s0[j].priority > priority,
            decreases s0.len() - i,
        {
            i += 1;
        }
        proof {
            lemma_insert_pos_properties(s0, priority);
            let pos = insert_pos(s0, priority);
            if pos < i as int {
                assert(s0[pos].priority > priority);
            }
            if (i as int) < pos {
                assert(s0[i as int].priority > priority);
            }
            assert(i as int == pos);
            lemma_insert_entry_wf(s0, entry_spec, self.sig);
        }
        let id = self.next_id;
        let entry = HookEntry { hook, id, priority };
        self.hooks.insert(i, entry);
        self.fast_path_flag = true;
        self.next_id = id + 1;
        Ok(id)
    }

    /// Attach `hook` at the default priority, zero.
    pub fn add_hook(&mut self, hook: H) -> (r: Result<u64, SigMismatch>)
        requires
            old(self).wf(),
            old(self).spec_next_id() < u64::MAX,
        ensures
            final(self).wf(),
            Self::add_hook_ensures(*old(self), *final(self), hook, 0i32, r),
    {
        self.add_hook_with_priority(hook, 0)
    }

    /// Everything `remove_hook` promises, stated as a relation between the
    /// record before and after the call.
    ///
    /// An absent identity leaves the record untouched and returns false; a
    /// present one removes exactly its slot and returns true. The fast-path
    /// flag clears exactly when the list becomes empty.
    pub open spec fn remove_hook_ensures(pre: Self, post: Self, id: u64, r: bool) -> bool {
        &&& post.spec_name() == pre.spec_name()
        &&& post.spec_func_ptr() == pre.spec_func_ptr()
        &&& post.spec_sig() == pre.spec_sig()
        &&& post.spec_next_id() == pre.spec_next_id()
        &&& r == has_id(pre.spec_hooks(), id)
        &&& if r {
            &&& post.spec_hooks() == pre.spec_hooks().remove(find_id(pre.spec_hooks(), id))
            &&& pre.spec_hooks()[find_id(pre.spec_hooks(), id)].id == id
        } else {
            post == pre
        }
        &&& post.spec_flag() == (post.spec_hooks().len() > 0)
    }

    /// Detach the hook whose slot identity is `id`.
    ///
    /// Returns whether anything was removed; the fast-path flag clears when
    /// the list becomes empty.
    pub fn remove_hook(&mut self, id: u64) -> (r: bool)
        requires
            old(self).wf(),
        ensures
            final(self).wf(),
            Self::remove_hook_ensures(*old(self), *final(self), id, r),
    {
        let ghost s0 = self.hooks@;
        let mut i: usize = 0;
        while i < self.hooks.len() && self.hooks[i].id != id
            invariant
                i <= s0.len(),
                self.hooks@ == s0,
                forall|j: int| 0 <= j < i ==> s0[j].id != id,
            decreases s0.len() - i,
        {
            i += 1;
        }
        proof {
            lemma_find_id_properties(s0, id);
            let pos = find_id(s0, id);
            if pos < i as int {
                assert(s0[pos].id != id);
            }
            if (i as int) < pos {
                assert(s0[i as int].id != id);
            }
            assert(i as int == pos);
        }
        if i < self.hooks.len() {
            proof {
                lemma_remove_entry_wf(s0, i as int, self.next_id, self.sig);
            }
            self.hooks.remove(i);
            if self.hooks.len() == 0 {
                self.fast_path_flag = false;
            }
            true
        } else {
            false
        }
    }

    /// Detach every hook and clear the fast-path flag unconditionally.
    ///
    /// Whatever sequence of additions came before, this restores the
    /// no-hook baseline: the list is empty and the fast path is open, so a
    /// call through [`call_hookable`](crate::dispatch::call_hookable)
    /// returns exactly a result of the original function. The identity
    /// counter is kept, so identities are never reused.
    pub fn clear_hooks(&mut self)
        requires
            old(self).wf(),
        ensures
            final(self).wf(),
            final(self).spec_name() == old(self).spec_name(),
            final(self).spec_func_ptr() == old(self).spec_func_ptr(),
            final(self).spec_sig() == old(self).spec_sig(),
            final(self).spec_next_id() == old(self).spec_next_id(),
            final(self).spec_hooks() == Seq::<HookEntry<H>>::empty(),
            !final(self).spec_flag(),
    {
        self.hooks.clear();
        self.fast_path_flag = false;
    }
}

/// Some record of the directory bears the name `n`.
pub open spec fn has_name<H: Hook>(s: Seq<HookableFuncMetadata<H>>, n: Seq<char>) -> bool {
    exists|i: int| 0 <= i < s.len() && s[i].spec_name() == n
}

/// The index of the first record named `n`, or the length when the name is
/// absent. Later records under the same name are unreachable by lookup.
pub open spec fn find_name<H: Hook>(s: Seq<HookableFuncMetadata<H>>, n: Seq<char>) -> int
    decreases s.len(),
{
    if s.len() == 0 {
        0
    } else if s[0].spec_name() == n {
        0
    } else {
        1 + find_name(s.subrange(1, s.len() as int), n)
    }
}

/// `find_name(s, n)` is the first index whose record is named `n`, and
/// `has_name` holds exactly when that index is in bounds.
pub proof fn lemma_find_name_properties<H: Hook>(s: Seq<HookableFuncMetadata<H>>, n: Seq<char>)
    ensures
        0 <= find_name(s, n) <= s.len(),
        forall|j: int| 0 <= j < find_name(s, n) ==> s[j].spec_name() != n,
        find_name(s, n) < s.len() ==> s[find_name(s, n)].spec_name() == n,
        has_name(s, n) <==> find_name(s, n) < s.len(),
    decreases s.len(),
{
    if s.len() == 0 {
        assert(!has_name(s, n));
    } else if s[0].spec_name() == n {
    } else {
        let sub = s.subrange(1, s.len() as int);
        lemma_find_name_properties(sub, n);
        assert forall|j: int| 0 <= j < find_name(s, n) implies s[j].spec_name() != n by {
            if j > 0 {
                assert(s[j] == sub[j - 1]);
            }
        }
        if find_name(s, n) < s.len() {
            assert(s[find_name(s, n)] == sub[find_name(s, n) - 1]);
        }
        if has_name(s, n) {
            let i = choose|i: int| 0 <= i < s.len() && s[i].spec_name() == n;
            assert(i > 0);
            assert(sub[i - 1] == s[i]);
            assert(has_name(sub, n));
        }
        if has_name(sub, n) {
            let i = choose|i: int| 0 <= i < sub.len() && sub[i].spec_name() == n;
            assert(s[i + 1] == sub[i]);
            assert(has_name(s, n));
        }
    }
}

/// Law of the directory: a record registered under a name not yet present
/// is the one a lookup of that name then returns — the found record equals
/// the registered one, so its name and original entry point match.
pub proof fn lemma_lookup_after_register<H: Hook>(
    s: Seq<HookableFuncMetadata<H>>,
    m: HookableFuncMetadata<H>,
)
    requires
        !has_name(s, m.spec_name()),
    ensures
        has_name(s.push(m), m.spec_name()),
        find_name(s.push(m), m.spec_name()) == s.len(),
        s.push(m)[find_name(s.push(m), m.spec_name())] == m,
    decreases s.len(),
{
    let n = m.spec_name();
    let t = s.push(m);
    assert(t[s.len() as int] == m);
    if s.len() == 0 {
    } else {
        assert(s[0].spec_name() != n);
        assert(t[0] == s[0]);
        let s1 = s.subrange(1, s.len() as int);
        assert forall|i: int| 0 <= i < s1.len() implies s1[i].spec_name() != n by {
            assert(s1[i] == s[i + 1]);
        }
        assert(!has_name(s1, n));
        lemma_lookup_after_register(s1, m);
        assert(t.subrange(1, t.len() as int) =~= s1.push(m));
    }
}

/// The process-wide directory: an ordered collection of hookable-function
/// records, searched by name. It is assembled by registration calls before
/// application code issues lookups; records are never deleted, only the
/// hooks within a record change.
pub struct HookableFuncRegistry<H> {
    records: Vec<HookableFuncMetadata<H>>,
}

impl<H: Hook> HookableFuncRegistry<H> {
    /// The records, in registration order.
    pub closed spec fn spec_records(&self) -> Seq<HookableFuncMetadata<H>> {
        self.records@
    }

    /// Every record of the directory satisfies its own invariant.
    pub open spec fn wf(&self) -> bool {
        forall|i: int|
            0 <= i < self.spec_records().len() ==> #[trigger] self.spec_records()[i].wf()
    }

    /// An empty directory.
    pub fn new() -> (r: Self)
        ensures
            r.spec_records() == Seq::<HookableFuncMetadata<H>>::empty(),
            r.wf(),
    {
        HookableFuncRegistry { records: Vec::new() }
    }

    /// Append a record. A record whose name is already present stays in
    /// the directory but is unreachable by lookup, which returns the first
    /// match.
    pub fn register(&mut self, record: HookableFuncMetadata<H>)
        requires
            old(self).wf(),
            record.wf(),
        ensures
            final(self).wf(),
            final(self).spec_records() == old(self).spec_records().push(record),
    {
        self.records.push(record);
    }
}

/// Find the first record named `name`, for inspection: its name equals the
/// query and its original entry point is the registered one. Returns
/// nothing exactly when no record bears the name. No case normalization,
/// no wildcard matching.
pub fn lookup_hookable<'a, H: Hook>(registry: &'a HookableFuncRegistry<H>, name: &str) -> (r:
    Option<&'a HookableFuncMetadata<H>>)
    ensures
        match r {
            Some(m) => {
                &&& has_name(registry.spec_records(), name@)
                &&& *m == registry.spec_records()[find_name(registry.spec_records(), name@)]
                &&& m.spec_name() == name@
            },
            None => !has_name(registry.spec_records(), name@),
        },
{
    let key = String::from_str(name);
    let ghost s = registry.spec_records();
    proof {
        lemma_find_name_properties(s, name@);
    }
    let mut i: usize = 0;
    while i < registry.records.len() && !registry.records[i].name_matches(&key)
        invariant
            i <= s.len(),
            registry.spec_records() == s,
            key@ == name@,
            forall|j: int| 0 <= j < i ==> s[j].spec_name() != name@,
        decreases s.len() - i,
    {
        i += 1;
    }
    proof {
        let pos = find_name(s, name@);
        if pos < i as int {
            assert(s[pos].spec_name() != name@);
        }
        if (i as int) < pos {
            assert(s[i as int].spec_name() != name@);
        }
        assert(i as int == pos);
    }
    if i < registry.records.len() {
        Some(&registry.records[i])
    } else {
        None
    }
}

/// Find the first record named `name`, for mutation: hooks are attached
/// and detached through the returned handle. The directory afterwards
/// holds, at the found index, whatever the caller left in the handle, and
/// is otherwise unchanged.
pub fn lookup_hookable_mut<'a, H: Hook>(
    registry: &'a mut HookableFuncRegistry<H>,
    name: &str,
) -> (r: Option<&'a mut HookableFuncMetadata<H>>)
    ensures
        match r {
            Some(m) => {
                &&& has_name(old(registry).spec_records(), name@)
                &&& *m == old(registry).spec_records()[find_name(
                    old(registry).spec_records(),
                    name@,
                )]
                &&& m.spec_name() == name@
                &&& final(registry).spec_records() == old(registry).spec_records().update(
                    find_name(old(registry).spec_records(), name@),
                    *final(m),
                )
            },
            None => {
                &&& !has_name(old(registry).spec_records(), name@)
                &&& *final(registry) == *old(registry)
            },
        },
{
    let key = String::from_str(name);
    let ghost s = registry.spec_records();
    proof {
        lemma_find_name_properties(s, name@);
    }
    let mut i: usize = 0;
    while i < registry.records.len() && !registry.records[i].name_matches(&key)
        invariant
            i <= s.len(),
            registry.spec_records() == s,
            key@ == name@,
            forall|j: int| 0 <= j < i ==> s[j].spec_name() != name@,
        decreases s.len() - i,
    {
        i += 1;
    }
    proof {
        let pos = find_name(s, name@);
        if pos < i as int {
            assert(s[pos].spec_name() != name@);
        }
        if (i as int) < pos {
            assert(s[i as int].spec_name() != name@);
        }
        assert(i as int == pos);
    }
    if i < registry.records.len() {
        Some(&mut registry.records[i])
    } else {
        None
    }
}

} // verus!
