use file_sink::burner::{PendingBurns, BURN_THRESHOLD};
use file_sink::channel::{message_channel, ChannelError, RecvOutcome};
use file_sink::packets::Balances;
use file_sink::sign::signed_org_request;
use helium_crypto::{KeyTag, Keypair};

#[test]
fn burn_threshold_gates_the_worker() {
    let payer = vec![1u8];
    let mut pending = PendingBurns::new();
    pending.burn(&payer, 9_999, 100);
    assert!(pending.next_burn().is_none());
    pending.burn(&payer, 1, 200);
    let pick = pending.next_burn().expect("row reached the threshold");
    assert_eq!(pick, (payer.clone(), 10_000));
    // Confirmation decrements the row and the in-memory balance together.
    let mut balances = Balances::new();
    balances.set_balance(&payer, 60_000);
    pending.confirm_burn(&payer, pick.1, 300);
    balances.burn(&payer, pick.1);
    assert_eq!(pending.amount_of(&payer), 0);
    assert_eq!(balances.debit_if_sufficient(&payer, 50_000), Some(true));
    assert_eq!(balances.debit_if_sufficient(&payer, 50_001), Some(false));
}

#[test]
fn upsert_accumulates_and_keeps_last_burn() {
    let payer = vec![2u8];
    let mut pending = PendingBurns::new();
    pending.burn(&payer, 5, 100);
    pending.burn(&payer, 7, 900);
    assert_eq!(pending.amount_of(&payer), 12);
    // The last-burn clock moves only on confirmation.
    assert_eq!(pending.entries[0].1.last_burn_ms, 100);
}

#[test]
fn oldest_eligible_row_burns_first() {
    let mut pending = PendingBurns::new();
    pending.burn(&vec![1u8], BURN_THRESHOLD, 500);
    pending.burn(&vec![2u8], BURN_THRESHOLD + 5, 200);
    pending.burn(&vec![3u8], BURN_THRESHOLD - 1, 50);
    let pick = pending.next_burn().expect("two rows are eligible");
    assert_eq!(pick, (vec![2u8], BURN_THRESHOLD + 5));
}

#[test]
fn channel_is_fifo_bounded_and_closable() {
    let mut queue = message_channel(2);
    assert!(queue.try_send(b"a".to_vec()).is_ok());
    assert!(queue.try_send(b"b".to_vec()).is_ok());
    assert_eq!(queue.try_send(b"c".to_vec()), Err(ChannelError::ChannelFull));
    match queue.recv() {
        RecvOutcome::Msg(m) => assert_eq!(m, b"a".to_vec()),
        _ => panic!("expected the oldest message"),
    }
    match queue.recv() {
        RecvOutcome::Msg(m) => assert_eq!(m, b"b".to_vec()),
        _ => panic!("expected the second message"),
    }
    match queue.recv() {
        RecvOutcome::Empty => {},
        _ => panic!("open and empty"),
    }
    queue.close();
    assert_eq!(queue.try_send(b"d".to_vec()), Err(ChannelError::ChannelClosed));
    match queue.recv() {
        RecvOutcome::Disconnected => {},
        _ => panic!("closed and empty"),
    }
}

#[test]
fn signed_request_keeps_its_fields() {
    let entropy = [7u8; 32];
    let keypair = Keypair::generate_from_entropy(KeyTag::default(), &entropy)
        .expect("keypair from fixed entropy");
    let unsigned = vec![8u8, 0, 16, 1];
    let req = signed_org_request(&keypair, 42, 1_234, &unsigned).expect("signing succeeds");
    assert_eq!(req.oui, 42);
    assert_eq!(req.timestamp_ms, 1_234);
    assert!(!req.signer.is_empty());
    assert!(!req.signature.is_empty());
}
