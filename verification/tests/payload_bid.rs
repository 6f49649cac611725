use focil::envelope::{next_envelope_action, EnvelopeAction, EnvelopeEvent, EnvelopeRejection};
use focil::payload_bid::{
    ExecutionPayloadBid, SignedExecutionPayloadBid,
    bid_variant_for_fork, select_bid_variant, select_signed_bid_variant, BidVariant, ForkName,
};

#[test]
fn bid_variants_by_fork() {
    assert_eq!(bid_variant_for_fork(ForkName::Fulu), None);
    assert_eq!(bid_variant_for_fork(ForkName::Base), None);
    assert_eq!(bid_variant_for_fork(ForkName::Gloas), Some(BidVariant::Gloas));
    assert_eq!(bid_variant_for_fork(ForkName::Heze), Some(BidVariant::Heze));
}

#[test]
fn bid_variant_selection() {
    // Exact Gloas encoding.
    assert_eq!(select_bid_variant(100, Some(100), None), Some(BidVariant::Gloas));
    // Two extra bytes are not enough to try Heze.
    assert_eq!(select_bid_variant(102, Some(100), Some(102)), Some(BidVariant::Gloas));
    // Three extra bytes and an exact Heze re-encoding.
    assert_eq!(select_bid_variant(103, Some(100), Some(103)), Some(BidVariant::Heze));
    // Heze must consume every byte.
    assert_eq!(select_bid_variant(110, Some(100), Some(108)), Some(BidVariant::Gloas));
    // Gloas fails.
    assert_eq!(select_bid_variant(50, None, Some(50)), Some(BidVariant::Heze));
    assert_eq!(select_bid_variant(50, None, None), None);
    assert_eq!(select_signed_bid_variant(true, true), Some(BidVariant::Gloas));
    assert_eq!(select_signed_bid_variant(false, true), Some(BidVariant::Heze));
    assert_eq!(select_signed_bid_variant(false, false), None);
}

#[test]
fn envelope_publication_steps() {
    assert_eq!(
        next_envelope_action(EnvelopeEvent::Received { gloas_scheduled: false }),
        EnvelopeAction::Respond(Err(EnvelopeRejection::NotSupportedBeforeGloas))
    );
    assert_eq!(
        next_envelope_action(EnvelopeEvent::Received { gloas_scheduled: true }),
        EnvelopeAction::Verify
    );
    assert_eq!(
        next_envelope_action(EnvelopeEvent::Verified(Err("bad".to_string()))),
        EnvelopeAction::Respond(Err(EnvelopeRejection::InvalidEnvelope("bad".to_string())))
    );
    assert_eq!(next_envelope_action(EnvelopeEvent::Verified(Ok(()))), EnvelopeAction::Publish);
    assert_eq!(
        next_envelope_action(EnvelopeEvent::Published(false)),
        EnvelopeAction::Respond(Err(EnvelopeRejection::PublishFailed))
    );
    assert_eq!(next_envelope_action(EnvelopeEvent::Published(true)), EnvelopeAction::Process);
    assert_eq!(
        next_envelope_action(EnvelopeEvent::Processed(Err("el".to_string()))),
        EnvelopeAction::Respond(Ok(()))
    );
}

#[test]
fn empty_signed_bids() {
    match SignedExecutionPayloadBid::empty_gloas() {
        SignedExecutionPayloadBid::Gloas(s) => {
            assert_eq!(s.signature.0, [0u8; 96]);
            match s.message {
                ExecutionPayloadBid::Gloas(b) => {
                    assert_eq!(b.gas_limit, 0);
                    assert!(b.blob_kzg_commitments.is_empty());
                    assert_eq!(b.parent_block_root.0, [0u8; 32]);
                }
                _ => panic!("expected a Gloas bid"),
            }
        }
        _ => panic!("expected a signed Gloas bid"),
    }
    match SignedExecutionPayloadBid::empty_heze() {
        SignedExecutionPayloadBid::Heze(s) => match s.message {
            ExecutionPayloadBid::Heze(b) => assert_eq!(b.inclusion_list_bits, [false; 16]),
            _ => panic!("expected a Heze bid"),
        },
        _ => panic!("expected a signed Heze bid"),
    }
    assert!(matches!(ExecutionPayloadBid::default(), ExecutionPayloadBid::Gloas(_)));
}
