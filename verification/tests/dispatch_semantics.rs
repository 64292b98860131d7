use safe_hook::call_hookable;
use safe_hook::Hook;
use safe_hook::HookChain;
use safe_hook::HookableFuncMetadata;
use safe_hook::SigTag;

const NUM_SIG_RESULT: u64 = 11;
const NUM_SIG_ARGS: u64 = 12;

// One list may mix behaviors through an enum: a hook that never continues,
// one that continues twice and sums, and one that bumps the result.
enum NumHook {
    ShortCircuit(i64),
    ContinueTwice,
    BumpResult(i64),
}

impl Hook for NumHook {
    type Args = (i64, i64);
    type Result = i64;

    fn sig_spec(&self) -> SigTag {
        self.sig()
    }

    fn sig(&self) -> SigTag {
        SigTag::new(NUM_SIG_RESULT, NUM_SIG_ARGS)
    }

    fn call<F: Fn((i64, i64)) -> i64>(
        &self,
        args: (i64, i64),
        next: &HookChain<'_, Self, (i64, i64), i64, F>,
    ) -> i64 {
        match self {
            NumHook::ShortCircuit(v) => *v,
            NumHook::ContinueTwice => next.invoke(args) + next.invoke(args),
            NumHook::BumpResult(d) => next.invoke(args) + *d,
        }
    }
}

fn num_record() -> HookableFuncMetadata<NumHook> {
    HookableFuncMetadata::new(
        "sum".to_string(),
        0,
        SigTag::new(NUM_SIG_RESULT, NUM_SIG_ARGS),
    )
}

fn run_sum(meta: &HookableFuncMetadata<NumHook>, left: i64, right: i64) -> i64 {
    let sum_fn = |args: (i64, i64)| -> i64 { args.0 + args.1 };
    call_hookable(&sum_fn, meta, (left, right))
}

// With zero hooks the target's own result comes back through the fast path.
#[test]
fn zero_hooks_is_original_result() {
    let meta = num_record();
    assert!(!meta.fast_path());
    assert_eq!(run_sum(&meta, 1, 2), 3);
    assert_eq!(run_sum(&meta, -4, 9), 5);
}

// A hook that never calls its continuation decides the result alone; the
// hooks after its slot and the original function never run.
#[test]
fn short_circuit_skips_the_rest() {
    let mut meta = num_record();
    meta.add_hook_with_priority(NumHook::BumpResult(1000), 1)
        .unwrap();
    meta.add_hook_with_priority(NumHook::ShortCircuit(42), 5)
        .unwrap();
    assert_eq!(run_sum(&meta, 1, 2), 42);
}

// A hook may run the rest of the chain more than once; every such run
// starts at the slot right after its own, so the downstream bump applies
// in each run and the upstream slot is never re-entered.
#[test]
fn continue_twice_runs_downstream_twice() {
    let mut meta = num_record();
    meta.add_hook_with_priority(NumHook::BumpResult(1), 1).unwrap();
    meta.add_hook_with_priority(NumHook::ContinueTwice, 5).unwrap();
    // each downstream run: (1 + 2) + 1 = 4; the doubler sums two runs
    assert_eq!(run_sum(&meta, 1, 2), 8);
}

// The cursor restores after a nested run: a doubler above two bumps sums
// two full downstream runs, each of which applies both bumps once.
#[test]
fn cursor_restores_between_runs() {
    let mut meta = num_record();
    meta.add_hook_with_priority(NumHook::BumpResult(1), 1).unwrap();
    meta.add_hook_with_priority(NumHook::BumpResult(10), 2).unwrap();
    meta.add_hook_with_priority(NumHook::ContinueTwice, 9).unwrap();
    // each downstream run: 3 + 10 + 1 = 14; two runs sum to 28
    assert_eq!(run_sum(&meta, 1, 2), 28);
}
