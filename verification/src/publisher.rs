//! Fan-out delivery of one event to every configured subscriber.
//!
//! The actual posting is a capability handed in by the surrounding program
//! (an HTTP client in production, a recording stub in tests). Delivery is
//! best-effort and fire-and-forget: a failing subscriber never stops
//! delivery to the remaining subscribers, and the publisher always reports
//! success to its caller.

use vstd::prelude::*;

use crate::config::TethysDashConfig;
use crate::tethysdash_client::XEvent;

verus! {

/// Publishes each event to every configured TethysDash subscriber through
/// the posting capability.
pub struct Publisher<F: Fn(TethysDashConfig, XEvent) -> Result<(), String>> {
    post_xevent: F,
    tethysdashes: Vec<TethysDashConfig>,
}

impl<F: Fn(TethysDashConfig, XEvent) -> Result<(), String>> Publisher<F> {
    /// The posting capability held.
    pub closed spec fn spec_post(&self) -> F {
        self.post_xevent
    }

    /// The configured subscribers, in delivery order.
    pub closed spec fn spec_subscribers(&self) -> Seq<TethysDashConfig> {
        self.tethysdashes@
    }

    /// The capability accepts every subscriber/event pair; required once of
    /// the caller that constructs the publisher's user.
    pub open spec fn post_callable(&self) -> bool {
        forall|cfg: TethysDashConfig, ev: XEvent| call_requires(self.spec_post(), (cfg, ev))
    }

    pub fn new(post_xevent: F, tethysdashes: Vec<TethysDashConfig>) -> (publisher: Publisher<F>)
        ensures
            publisher.spec_post() == post_xevent,
            publisher.spec_subscribers() == tethysdashes@,
    {
        Publisher { post_xevent, tethysdashes }
    }

    /// Post the event once to each subscriber, in order. A failed delivery
    /// is the failing subscriber's affair alone: the remaining subscribers
    /// still receive the event, and the result is success regardless of any
    /// delivery outcome.
    pub fn publish_xevent(&self, xevent: XEvent) -> (r: Result<(), String>)
        requires
            self.post_callable(),
        ensures
            r is Ok,
    {
        let mut i: usize = 0;
        while i < self.tethysdashes.len()
            invariant
                self.post_callable(),
            decreases self.tethysdashes.len() - i,
        {
            let tethysdash_config = self.tethysdashes[i].clone();
            let event = xevent.clone();
            proof {
                assert(call_requires(self.spec_post(), (tethysdash_config, event)));
            }
            // the capability reports its own failures; none of them stops
            // the remaining deliveries
            let _ = (self.post_xevent)(tethysdash_config, event);
            i += 1;
        }
        Ok(())
    }
}

} // verus!
