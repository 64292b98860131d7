use safe_hook::call_with_hook;
use safe_hook::lookup_hookable_mut;
use safe_hook::Hook;
use safe_hook::HookChain;
use safe_hook::HookableFuncMetadata;
use safe_hook::HookableFuncRegistry;
use safe_hook::SigTag;

// Tag pair standing for the (String, (String, String)) signature here.
const CONCAT_SIG_RESULT: u64 = 3;
const CONCAT_SIG_ARGS: u64 = 4;

struct ConcatHook {
    mid: String,
}

impl Hook for ConcatHook {
    type Args = (String, String);
    type Result = String;

    fn sig_spec(&self) -> SigTag {
        self.sig()
    }

    fn sig(&self) -> SigTag {
        SigTag::new(CONCAT_SIG_RESULT, CONCAT_SIG_ARGS)
    }

    fn call<F: Fn((String, String)) -> String>(
        &self,
        args: (String, String),
        next: &HookChain<'_, Self, (String, String), String, F>,
    ) -> String {
        let (left, right) = args;
        let left_new = format!("{}-{}", left, self.mid);
        next.invoke((left_new, right))
    }
}

// The call-site wrapper the code generator would emit for `concat`.
fn run_concat(meta: &HookableFuncMetadata<ConcatHook>, left: &str, right: &str) -> String {
    let concat_fn = |args: (String, String)| -> String { format!("{}-{}", args.0, args.1) };
    let args = (left.to_string(), right.to_string());
    if !meta.fast_path() {
        concat_fn(args)
    } else {
        call_with_hook(&concat_fn, meta, args)
    }
}

#[test]
fn concat_test() {
    let mut registry: HookableFuncRegistry<ConcatHook> = HookableFuncRegistry::new();
    registry.register(HookableFuncMetadata::new(
        "concat".to_string(),
        0,
        SigTag::new(CONCAT_SIG_RESULT, CONCAT_SIG_ARGS),
    ));
    let hookable_metadata = lookup_hookable_mut(&mut registry, "concat").unwrap();
    assert_eq!(run_concat(hookable_metadata, "abc", "def"), "abc-def");
    let hook1 = ConcatHook {
        mid: "hook1".to_string(),
    };
    let id1 = hookable_metadata.add_hook(hook1).unwrap();
    assert_eq!(run_concat(hookable_metadata, "abc", "def"), "abc-hook1-def");
    let hook2 = ConcatHook {
        mid: "hook2".to_string(),
    };
    let id2 = hookable_metadata.add_hook(hook2).unwrap();
    assert_eq!(run_concat(hookable_metadata, "abc", "def"), "abc-hook2-hook1-def");
    let x = hookable_metadata.remove_hook(id1);
    assert!(x);
    assert_eq!(run_concat(hookable_metadata, "abc", "def"), "abc-hook2-def");
    let x = hookable_metadata.remove_hook(id2);
    assert!(x);
    assert_eq!(run_concat(hookable_metadata, "abc", "def"), "abc-def");
    let x = hookable_metadata.remove_hook(id2);
    assert!(!x);
}
