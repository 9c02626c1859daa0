//! The mining engine: orchestrates the proof-of-work search with
//! progress, success and failure hooks.

use vstd::prelude::*;
use crate::error::Error;
use crate::hex_string::{HexString, default_key_text};
use crate::ledger::Ledger;
use crate::message::{Message, link_accepts};
use crate::traits::Action;

verus! {

/// The key the next mined link must chain from: the last committed
/// link's, or the canonical default key over an empty history.
pub open spec fn mining_prev_key<A: Action>(history: Seq<Message<A>>) -> Seq<char> {
    if history.len() == 0 {
        default_key_text()
    } else {
        history.last().key@
    }
}

/// A configurable mining orchestrator with three extension points: a
/// hook fired periodically during the search with the latest attempted
/// digest, a hook fired with the newly committed key on success, and a
/// no-argument hook fired when the action was inapplicable or its
/// application failed.
pub struct ActionInterface<FI, FT, FS> where FI: Fn(), FT: Fn(HexString), FS: Fn(HexString) {
    pub invalid: FI,
    pub iter: FT,
    pub success: FS,
    pub iter_period: u32,
}

impl<FI, FT, FS> ActionInterface<FI, FT, FS> where
    FI: Fn(),
    FT: Fn(HexString),
    FS: Fn(HexString),
 {
    /// An engine with the given hooks, firing the progress hook as
    /// rarely as possible.
    pub fn new(invalid: FI, iter: FT, success: FS) -> (r: Self)
        ensures
            r.invalid == invalid,
            r.iter == iter,
            r.success == success,
            r.iter_period == u32::MAX,
    {
        ActionInterface { invalid, iter, success, iter_period: u32::MAX }
    }

    /// Replace the failure hook.
    pub fn on_fail<F2: Fn()>(self, fail_function: F2) -> (r: ActionInterface<F2, FT, FS>)
        ensures
            r.invalid == fail_function,
            r.iter == self.iter,
            r.success == self.success,
            r.iter_period == self.iter_period,
    {
        ActionInterface {
            invalid: fail_function,
            iter: self.iter,
            success: self.success,
            iter_period: self.iter_period,
        }
    }

    /// Replace the success hook.
    pub fn on_success<F2: Fn(HexString)>(self, success_function: F2) -> (r: ActionInterface<
        FI,
        FT,
        F2,
    >)
        ensures
            r.invalid == self.invalid,
            r.iter == self.iter,
            r.success == success_function,
            r.iter_period == self.iter_period,
    {
        ActionInterface {
            invalid: self.invalid,
            iter: self.iter,
            success: success_function,
            iter_period: self.iter_period,
        }
    }

    /// Replace the progress hook.
    pub fn on_iter<F2: Fn(HexString)>(self, iter_hook: F2) -> (r: ActionInterface<FI, F2, FS>)
        ensures
            r.invalid == self.invalid,
            r.iter == iter_hook,
            r.success == self.success,
            r.iter_period == self.iter_period,
    {
        ActionInterface {
            invalid: self.invalid,
            iter: iter_hook,
            success: self.success,
            iter_period: self.iter_period,
        }
    }

    /// Set how many attempts pass between progress reports.
    pub fn with_period(self, period: u32) -> (r: Self)
        ensures
            r.invalid == self.invalid,
            r.iter == self.iter,
            r.success == self.success,
            r.iter_period == period,
    {
        ActionInterface {
            invalid: self.invalid,
            iter: self.iter,
            success: self.success,
            iter_period: period,
        }
    }

    /// Run one action against the chain: check applicability, mine the
    /// next link, apply it, and fire the hooks.
    ///
    /// An inapplicable action is a normal, reported outcome (the
    /// failure hook fires and the run succeeds), not an engine error;
    /// an error is returned only when a mined link's application fails,
    /// or when the search itself gives up.
    pub fn run<A: Action>(&self, action: A, ledger: Ledger<'_, A>, state: A::State) -> (r: Result<
        (),
        Error<A>,
    >)
        requires
            self.iter_period >= 1,
            call_requires(self.invalid, ()),
            forall|h: HexString| call_requires(self.iter, (h,)),
            forall|h: HexString| call_requires(self.success, (h,)),
        ensures
            !A::applicable_spec(action, ledger@, state) ==> r is Ok,
            r is Err ==> A::applicable_spec(action, ledger@, state),
            r is Ok && A::applicable_spec(action, ledger@, state) ==> exists|m: Message<A>|
                #[trigger] m.action == action && link_accepts(mining_prev_key(ledger@), m, state)
                    && A::apply_spec(action, ledger@, m.key@, state) is Some,
    {
        if action.applicable(&ledger, &state) {
            let messages = ledger.messages();
            let searched: Option<Message<A>> = if messages.len() == 0 {
                let origin: Message<A> = Message::default();
                origin.gen_next_message_with_hook(action, &state, &self.iter, self.iter_period)
            } else {
                proof {
                    assert(ledger@.last() == messages@[messages@.len() - 1]);
                }
                messages[messages.len() - 1].gen_next_message_with_hook(
                    action,
                    &state,
                    &self.iter,
                    self.iter_period,
                )
            };
            let next = match searched {
                Some(m) => m,
                None => {
                    (self.invalid)();
                    return Err(Error::BadAction);
                },
            };
            let pending = ledger.with_hash(next.key());
            match next.action().apply(&pending, state) {
                Ok(_) => {
                    (self.success)(next.key().clone());
                    proof {
                        assert(next.action == action && link_accepts(
                            mining_prev_key(ledger@),
                            next,
                            state,
                        ) && A::apply_spec(action, ledger@, next.key@, state) is Some);
                    }
                    Ok(())
                },
                Err(e) => {
                    (self.invalid)();
                    Err(e)
                },
            }
        } else {
            (self.invalid)();
            Ok(())
        }
    }
}

} // verus!
