//! The stream of events to one browser: what comes close together is told together.

use crate::events::{coalesce, latest, news, Event, News};
use crate::text;
use vstd::prelude::*;

verus! {

/// How many milliseconds are waited for more after the first event of a batch.
pub const BATCH_WINDOW: u64 = 50;

/// What comes from the bus.
#[derive(Debug, PartialEq, Eq)]
pub enum Received {
    Event(Event),
    /// The browser was too slow, and events were lost.
    Lagged,
    /// There will be no more.
    Closed,
}

/// What is told for what came from the bus.
pub open spec fn told(r: Received) -> Option<News> {
    match r {
        Received::Event(e) => Some(e@),
        Received::Lagged => Some(News::Resync),
        Received::Closed => None,
    }
}

/// Adds what came from the bus to a batch; says whether there may be more.
pub fn gather(batch: &mut Vec<Event>, r: Received) -> (more: bool)
    ensures
        match told(r) {
            Some(n) => more && news(final(batch)@) == news(old(batch)@).push(n),
            None => !more && news(final(batch)@) == news(old(batch)@),
        },
{
    let ghost was = news(batch@);
    match r {
        Received::Event(e) => {
            let ghost n = e@;
            batch.push(e);
            proof {
                assert(news(batch@) =~= was.push(n));
            }
            true
        },
        Received::Lagged => {
            batch.push(Event::Resync);
            proof {
                assert(news(batch@) =~= was.push(News::Resync));
            }
            true
        },
        Received::Closed => false,
    }
}

/// What is sent of a batch.
pub fn send(batch: Vec<Event>) -> (out: Vec<Event>)
    ensures
        news(out@) == latest(news(batch@)),
{
    coalesce(batch)
}

/// The answer to a text of the browser: one for a ping, none for anything else.
pub fn reply_to(said: &str) -> (r: Option<&'static str>)
    ensures
        text::opt_str(r) == (if text::occurs(said@, "\"ping\""@) {
            Some("{\"type\":\"pong\"}"@)
        } else {
            None
        }),
{
    if text::contains(said, "\"ping\"") {
        Some("{\"type\":\"pong\"}")
    } else {
        None
    }
}

/// Every event is told as it is; one who was too slow is told to look anew, and at the end nothing is told.
pub proof fn lemma_nothing_is_lost_in_silence(r: Received)
    ensures
        told(r) is None <==> r is Closed,
        r matches Received::Event(e) ==> told(r) == Some(e@),
        r is Lagged ==> told(r) == Some(News::Resync),
{
}

} // verus!
