//! The outgoing hook pipeline: payload rewrites applied in registration order.
use vstd::prelude::*;

verus! {

/// A rewrite of an outgoing payload, run before the payload is encrypted.
/// It may change the payload's length.
pub trait Hook {
    /// What the hook makes of `msg`.
    spec fn rewrite(&self, msg: Seq<u8>) -> Seq<u8>;

    fn apply(&self, msg: Vec<u8>) -> (r: Vec<u8>)
        ensures
            r@ == self.rewrite(msg@),
    ;
}

/// The payload after every hook of `hooks` has run, the first registered first,
/// each on the output of the one before.
pub open spec fn run_hooks<H: Hook>(hooks: Seq<H>, msg: Seq<u8>) -> Seq<u8>
    decreases hooks.len(),
{
    if hooks.len() == 0 {
        msg
    } else {
        hooks.last().rewrite(run_hooks(hooks.drop_last(), msg))
    }
}

/// Runs the pipeline on `msg`.
pub fn apply_hooks<H: Hook>(hooks: &Vec<H>, msg: Vec<u8>) -> (r: Vec<u8>)
    ensures
        r@ == run_hooks(hooks@, msg@),
{
    let ghost original = msg@;
    let mut cur = msg;
    let mut i: usize = 0;
    while i < hooks.len()
        invariant
            i <= hooks@.len(),
            cur@ == run_hooks(hooks@.take(i as int), original),
        decreases hooks@.len() - i,
    {
        proof {
            assert(hooks@.take(i + 1).drop_last() =~= hooks@.take(i as int));
        }
        cur = hooks[i].apply(cur);
        i = i + 1;
    }
    assert(hooks@.take(i as int) =~= hooks@);
    cur
}

/// With `first` registered before `second`, the payload is rewritten by
/// `first` and then by `second`, never the other way round.
pub proof fn lemma_hooks_run_in_registration_order<H: Hook>(first: H, second: H, msg: Seq<u8>)
    ensures
        run_hooks(seq![first, second], msg) == second.rewrite(first.rewrite(msg)),
{
    assert(seq![first, second] =~= seq![first].push(second));
    assert(seq![first] =~= Seq::<H>::empty().push(first));
    lemma_run_hooks_push(Seq::<H>::empty(), first, msg);
    lemma_run_hooks_push(seq![first], second, msg);
    assert(run_hooks(Seq::<H>::empty(), msg) == msg);
}

/// Registering one more hook runs it on the output of those registered before.
pub proof fn lemma_run_hooks_push<H: Hook>(hooks: Seq<H>, hook: H, msg: Seq<u8>)
    ensures
        run_hooks(hooks.push(hook), msg) == hook.rewrite(run_hooks(hooks, msg)),
{
    assert(hooks.push(hook).drop_last() =~= hooks);
}

/// Byte-level hooks that need no message codec.
pub enum ByteHook {
    /// Sets the byte at `at` to `value` when it currently holds `expect`;
    /// a shorter payload, or another byte there, passes unchanged.
    Patch { at: usize, expect: u8, value: u8 },
    /// Appends one byte, which makes the payload one byte longer.
    Append(u8),
}

impl Hook for ByteHook {
    open spec fn rewrite(&self, msg: Seq<u8>) -> Seq<u8> {
        match *self {
            ByteHook::Patch { at, expect, value } => {
                if (at as int) < msg.len() && msg[at as int] == expect {
                    msg.update(at as int, value)
                } else {
                    msg
                }
            },
            ByteHook::Append(b) => msg.push(b),
        }
    }

    fn apply(&self, msg: Vec<u8>) -> (r: Vec<u8>) {
        let mut out = msg;
        match *self {
            ByteHook::Patch { at, expect, value } => {
                if at < out.len() && out[at] == expect {
                    out.set(at, value);
                }
            },
            ByteHook::Append(b) => {
                out.push(b);
            },
        }
        out
    }
}

} // verus!
