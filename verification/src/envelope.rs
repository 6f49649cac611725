//! The steps of publishing a locally produced execution payload envelope:
//! refuse it before the fork that introduced envelopes, verify it as gossip
//! would, publish it, then process it locally.

use vstd::prelude::*;

verus! {

/// Why publishing an envelope was refused.
#[derive(Debug, PartialEq, Eq)]
pub enum EnvelopeRejection {
    /// Envelopes are not supported before the Gloas fork (a bad request).
    NotSupportedBeforeGloas,
    /// The envelope failed verification (a bad request), with the reason.
    InvalidEnvelope(String),
    /// The envelope could not be sent to the network (a server error).
    PublishFailed,
}

/// What happened at the last step of publishing an envelope.
#[derive(Debug)]
pub enum EnvelopeEvent {
    /// A request arrived; whether the Gloas fork is scheduled.
    Received { gloas_scheduled: bool },
    /// The envelope was verified, or failed verification with a reason.
    Verified(Result<(), String>),
    /// The envelope was sent to the network, or sending failed.
    Published(bool),
    /// The envelope was processed locally, or processing failed.
    Processed(Result<(), String>),
}

/// What to do next.
#[derive(Debug, PartialEq, Eq)]
pub enum EnvelopeAction {
    /// Verify the envelope as gossip would.
    Verify,
    /// Send the envelope to the network.
    Publish,
    /// Process the envelope locally (hand it to the execution layer).
    Process,
    /// Answer the request: success, or the rejection.
    Respond(Result<(), EnvelopeRejection>),
}

/// The next action after `event`.
pub open spec fn spec_next_envelope_action(event: EnvelopeEvent) -> EnvelopeAction {
    match event {
        EnvelopeEvent::Received { gloas_scheduled } => if gloas_scheduled {
            EnvelopeAction::Verify
        } else {
            EnvelopeAction::Respond(Err(EnvelopeRejection::NotSupportedBeforeGloas))
        },
        EnvelopeEvent::Verified(Ok(())) => EnvelopeAction::Publish,
        EnvelopeEvent::Verified(Err(e)) => EnvelopeAction::Respond(
            Err(EnvelopeRejection::InvalidEnvelope(e)),
        ),
        EnvelopeEvent::Published(true) => EnvelopeAction::Process,
        EnvelopeEvent::Published(false) => EnvelopeAction::Respond(
            Err(EnvelopeRejection::PublishFailed),
        ),
        EnvelopeEvent::Processed(_) => EnvelopeAction::Respond(Ok(())),
    }
}

/// Decides the next step of publishing an envelope. A failure of local
/// processing does not fail the request: the envelope was published.
pub fn next_envelope_action(event: EnvelopeEvent) -> (r: EnvelopeAction)
    ensures
        r == spec_next_envelope_action(event),
        event is Processed ==> r == EnvelopeAction::Respond(Ok(())),
        r == EnvelopeAction::Respond(Ok(())) <==> event is Processed,
        r == EnvelopeAction::Respond(Err(EnvelopeRejection::PublishFailed)) <==> event
            == EnvelopeEvent::Published(false),
{
    proof {
        lemma_envelope_responses(event);
    }
    match event {
        EnvelopeEvent::Received { gloas_scheduled } => {
            if gloas_scheduled {
                EnvelopeAction::Verify
            } else {
                EnvelopeAction::Respond(Err(EnvelopeRejection::NotSupportedBeforeGloas))
            }
        },
        EnvelopeEvent::Verified(Ok(())) => EnvelopeAction::Publish,
        EnvelopeEvent::Verified(Err(e)) => EnvelopeAction::Respond(
            Err(EnvelopeRejection::InvalidEnvelope(e)),
        ),
        EnvelopeEvent::Published(sent) => {
            if sent {
                EnvelopeAction::Process
            } else {
                EnvelopeAction::Respond(Err(EnvelopeRejection::PublishFailed))
            }
        },
        EnvelopeEvent::Processed(_) => EnvelopeAction::Respond(Ok(())),
    }
}

/// Once an envelope was published and handed to local processing, the
/// request succeeds whatever processing returned; success is answered at no
/// other step, and the server error of a failed publication only when
/// publishing failed. Before publication, a request is refused only before
/// the fork or for an envelope that failed verification.
pub proof fn lemma_envelope_responses(event: EnvelopeEvent)
    ensures
        event is Processed ==> spec_next_envelope_action(event) == EnvelopeAction::Respond(Ok(())),
        spec_next_envelope_action(event) == EnvelopeAction::Respond(Ok(())) <==> event is Processed,
        spec_next_envelope_action(event) == EnvelopeAction::Respond(
            Err(EnvelopeRejection::PublishFailed),
        ) <==> event == EnvelopeEvent::Published(false),
        event == EnvelopeEvent::Published(true) ==> spec_next_envelope_action(event)
            == EnvelopeAction::Process,
        event == EnvelopeEvent::Verified(Ok(())) ==> spec_next_envelope_action(event)
            == EnvelopeAction::Publish,
        event == (EnvelopeEvent::Received { gloas_scheduled: true }) ==> spec_next_envelope_action(event)
            == EnvelopeAction::Verify,
{
}

/// Local processing cannot change the answer: two processing outcomes give
/// the same action.
pub proof fn lemma_processing_outcome_ignored(a: Result<(), String>, b: Result<(), String>)
    ensures
        spec_next_envelope_action(EnvelopeEvent::Processed(a)) == spec_next_envelope_action(
            EnvelopeEvent::Processed(b),
        ),
        spec_next_envelope_action(EnvelopeEvent::Processed(a)) == EnvelopeAction::Respond(Ok(())),
{
    lemma_envelope_responses(EnvelopeEvent::Processed(a));
    lemma_envelope_responses(EnvelopeEvent::Processed(b));
}

} // verus!
