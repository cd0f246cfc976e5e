//! Laws of whole runs of frames.

use vstd::prelude::*;

use crate::binary64::Binary64;
use crate::client::{reaction_to, state_after, state_settled, ClientState, Message, Reaction};
use crate::executor::{conversion_trade, Attempt};
use crate::feed::{next_step, Frame, NextStep};
use crate::settlement::{after_trade, AfterTrade};
use crate::strategy::TradeParams;

verus! {

/// The texts of the frames up to the first close, which are the ones to be handled.
pub open spec fn texts_handled(frames: Seq<Frame>) -> Seq<Seq<char>>
    decreases frames.len(),
{
    if frames.len() == 0 {
        Seq::empty()
    } else {
        match frames[0] {
            Frame::Text(text) => seq![text@] + texts_handled(frames.drop_first()),
            Frame::Close => Seq::empty(),
            Frame::Other => texts_handled(frames.drop_first()),
        }
    }
}

/// The frames that are not passed over.
pub open spec fn not_passed_over(frames: Seq<Frame>) -> Seq<Frame>
    decreases frames.len(),
{
    if frames.len() == 0 {
        Seq::empty()
    } else if frames[0] is Other {
        not_passed_over(frames.drop_first())
    } else {
        seq![frames[0]] + not_passed_over(frames.drop_first())
    }
}

/// What a message led to.
pub struct Outcome {
    pub reaction: Reaction,
    /// What was left to do of the trade that was placed, if one was.
    pub left: Option<AfterTrade>,
}

/// What a run meets outside: how texts are read, the sizes that a trade is ordered with,
/// and the amounts that are bought and sold, given what happened so far.
pub struct Surroundings {
    pub read: spec_fn(Seq<char>) -> Option<Message>,
    pub ordered: spec_fn(TradeParams) -> TradeParams,
    pub filled: spec_fn(Seq<Outcome>, TradeParams) -> (Binary64, Binary64),
}

/// Where a run has got to.
pub struct Run {
    pub state: ClientState,
    /// What the messages led to, in their order.
    pub outcomes: Seq<Outcome>,
    /// Whether the run ended at a text that could not be read.
    pub failed: bool,
}

/// The trade that a reaction places, if it places one.
pub open spec fn trade_placed(state: ClientState, reaction: Reaction) -> Option<TradeParams> {
    match reaction {
        Reaction::Attempted(Attempt::Place { trade_params, .. }) => Some(trade_params),
        Reaction::Balances { conversion: Some(conversion), .. } => match conversion_trade(
            state.settings,
            state.executor_prices,
            conversion,
        ) {
            Ok(trade_params) => Some(trade_params),
            Err(_) => None,
        },
        _ => None,
    }
}

/// A run after one more message. A trade that an attempt places is settled at once.
pub open spec fn after_message(
    around: Surroundings,
    followed: Seq<Seq<char>>,
    run: Run,
    message: Message,
) -> Run {
    let reaction = reaction_to(run.state, followed, message);
    let state = state_after(run.state, followed, message);
    let left = match trade_placed(state, reaction) {
        Some(trade_params) => {
            let ordered = (around.ordered)(trade_params);
            let (bought, sold) = (around.filled)(run.outcomes, ordered);
            Some(after_trade(ordered, bought, sold))
        },
        None => None,
    };
    Run {
        state: if reaction matches Reaction::Attempted(Attempt::Place { .. }) {
            state_settled(state)
        } else {
            state
        },
        outcomes: run.outcomes.push(Outcome { reaction, left }),
        failed: false,
    }
}

/// A run after the given texts. It ends at one that cannot be read.
pub open spec fn after_texts(
    around: Surroundings,
    followed: Seq<Seq<char>>,
    run: Run,
    texts: Seq<Seq<char>>,
) -> Run
    decreases texts.len(),
{
    if texts.len() == 0 {
        run
    } else {
        match (around.read)(texts[0]) {
            Some(message) => after_texts(
                around,
                followed,
                after_message(around, followed, run, message),
                texts.drop_first(),
            ),
            None => Run { failed: true, ..run },
        }
    }
}

/// A run after the given frames: a text is handled, a close ends the run, and anything
/// else is passed over.
pub open spec fn after_frames(
    around: Surroundings,
    followed: Seq<Seq<char>>,
    run: Run,
    frames: Seq<Frame>,
) -> Run
    decreases frames.len(),
{
    if frames.len() == 0 {
        run
    } else {
        match next_step(frames[0]) {
            NextStep::Handle(text) => match (around.read)(text) {
                Some(message) => after_frames(
                    around,
                    followed,
                    after_message(around, followed, run, message),
                    frames.drop_first(),
                ),
                None => Run { failed: true, ..run },
            },
            NextStep::Stop => run,
            NextStep::Skip => after_frames(around, followed, run, frames.drop_first()),
        }
    }
}

/// A text is handled as it is, a close stops, and anything else is passed over.
pub proof fn law_step_follows_the_kind_of_frame(frame: Frame)
    ensures
        frame matches Frame::Text(text) ==> next_step(frame) == NextStep::Handle(text@),
        frame is Close ==> next_step(frame) is Stop,
        frame is Other ==> next_step(frame) is Skip,
{
}

/// A run depends on its frames only through the texts up to the first close.
pub proof fn law_run_depends_on_the_texts(
    around: Surroundings,
    followed: Seq<Seq<char>>,
    run: Run,
    frames: Seq<Frame>,
)
    ensures
        after_frames(around, followed, run, frames) == after_texts(
            around,
            followed,
            run,
            texts_handled(frames),
        ),
    decreases frames.len(),
{
    if frames.len() > 0 {
        let rest = frames.drop_first();
        match frames[0] {
            Frame::Text(text) => {
                assert(texts_handled(frames).drop_first() == texts_handled(rest));
                if let Some(message) = (around.read)(text@) {
                    let next = after_message(around, followed, run, message);
                    law_run_depends_on_the_texts(around, followed, next, rest);
                }
            },
            Frame::Close => {},
            Frame::Other => {
                law_run_depends_on_the_texts(around, followed, run, rest);
            },
        }
    }
}

/// A frame that is passed over can be put in anywhere: the same texts are handled.
pub proof fn law_passed_over_frame_changes_no_text(frames: Seq<Frame>, at: int)
    requires
        0 <= at <= frames.len(),
    ensures
        texts_handled(frames.insert(at, Frame::Other)) == texts_handled(frames),
        not_passed_over(frames.insert(at, Frame::Other)) == not_passed_over(frames),
    decreases frames.len(),
{
    let longer = frames.insert(at, Frame::Other);
    if at == 0 {
        assert(longer.drop_first() == frames);
    } else {
        let rest = frames.drop_first();
        assert(longer.drop_first() == rest.insert(at - 1, Frame::Other));
        law_passed_over_frame_changes_no_text(rest, at - 1);
    }
}

/// The texts to be handled are those of the frames that are not passed over.
proof fn lemma_texts_not_passed_over(frames: Seq<Frame>)
    ensures
        texts_handled(not_passed_over(frames)) == texts_handled(frames),
    decreases frames.len(),
{
    if frames.len() > 0 {
        let rest = frames.drop_first();
        lemma_texts_not_passed_over(rest);
        if !(frames[0] is Other) {
            assert(not_passed_over(frames).drop_first() == not_passed_over(rest));
        }
    }
}

/// Two runs from the same state whose frames differ only in those that are passed over,
/// however many and wherever they are, handle the same texts, have the same outcomes,
/// end in the same way and leave the client in the same state.
pub proof fn law_passed_over_frames_change_nothing(
    around: Surroundings,
    followed: Seq<Seq<char>>,
    run: Run,
    one: Seq<Frame>,
    two: Seq<Frame>,
)
    requires
        not_passed_over(one) == not_passed_over(two),
    ensures
        texts_handled(one) == texts_handled(two),
        after_frames(around, followed, run, one) == after_frames(around, followed, run, two),
{
    lemma_texts_not_passed_over(one);
    lemma_texts_not_passed_over(two);
    law_run_depends_on_the_texts(around, followed, run, one);
    law_run_depends_on_the_texts(around, followed, run, two);
}

/// A trade is placed only on a best bid and offer while none is under way, or on the
/// first balances after a settled trade, to split the dollars evenly. Any other message
/// places none.
pub proof fn law_trades_follow_prices_or_a_settled_trade(
    state: ClientState,
    followed: Seq<Seq<char>>,
    message: Message,
)
    ensures
        trade_placed(
            state_after(state, followed, message),
            reaction_to(state, followed, message),
        ) is Some ==> !state.executing && (message is Bbo || state.due && (
        message matches Message::WebData2(web_data) && web_data is Some)),
{
}

/// Nothing behind a close is handled.
pub proof fn law_close_ends_the_run(before: Seq<Frame>, behind: Seq<Frame>)
    ensures
        texts_handled(before.push(Frame::Close) + behind) == texts_handled(before),
    decreases before.len(),
{
    let whole = before.push(Frame::Close) + behind;
    if before.len() > 0 {
        let rest = before.drop_first();
        assert(whole.drop_first() == rest.push(Frame::Close) + behind);
        law_close_ends_the_run(rest, behind);
    }
}

} // verus!
