//! Labels a closed window on its two axes.

use vstd::prelude::*;
use crate::config::MIN_ARB_TICKS;
use crate::types::{CloseReason, OpenDurationClass, WindowObservables};

verus! {

/// The two labels of a window with the given observables. A window that
/// closed before it was confirmed is not given a reason. A confirmed window
/// with no signal at all counts as a vanished order.
pub open spec fn classify_spec(obs: WindowObservables) -> (OpenDurationClass, Option<CloseReason>) {
    if obs.tick_count < MIN_ARB_TICKS {
        (OpenDurationClass::SingleTick, None)
    } else if obs.trade_event_fired {
        if obs.volume_change_ticks > 1 {
            (OpenDurationClass::MultiTick, Some(CloseReason::VolumeSpikeGradual))
        } else {
            (OpenDurationClass::MultiTick, Some(CloseReason::VolumeSpikeInstant))
        }
    } else if obs.price_shifted {
        (OpenDurationClass::MultiTick, Some(CloseReason::PriceDrift))
    } else {
        (OpenDurationClass::MultiTick, Some(CloseReason::OrderVanished))
    }
}

/// Classifies a closing window from its observables alone.
pub fn classify(obs: &WindowObservables) -> (r: (OpenDurationClass, Option<CloseReason>))
    ensures
        r == classify_spec(*obs),
{
    if obs.tick_count < MIN_ARB_TICKS {
        return (OpenDurationClass::SingleTick, None);
    }
    let close_reason = if obs.trade_event_fired {
        if obs.volume_change_ticks > 1 {
            CloseReason::VolumeSpikeGradual
        } else {
            CloseReason::VolumeSpikeInstant
        }
    } else if obs.price_shifted {
        CloseReason::PriceDrift
    } else {
        CloseReason::OrderVanished
    };
    (OpenDurationClass::MultiTick, Some(close_reason))
}

/// The classifier is a function of the observables: windows with equal
/// observables get equal labels.
pub proof fn lemma_classify_is_function(a: WindowObservables, b: WindowObservables)
    requires
        a.tick_count == b.tick_count,
        a.trade_event_fired == b.trade_event_fired,
        a.volume_change_ticks == b.volume_change_ticks,
        a.price_shifted == b.price_shifted,
    ensures
        classify_spec(a) == classify_spec(b),
{
}

/// The classifier is total: every window gets a class; a reason is given
/// exactly to the confirmed ones.
pub proof fn lemma_classify_total(obs: WindowObservables)
    ensures
        classify_spec(obs).0 == OpenDurationClass::SingleTick <==> obs.tick_count < MIN_ARB_TICKS,
        classify_spec(obs).1 is None <==> obs.tick_count < MIN_ARB_TICKS,
{
}

} // verus!
