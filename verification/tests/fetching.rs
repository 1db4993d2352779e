use schedulecommit::fetcher::{
    after_reply, after_send, fetch_account_chain_snapshot, AccountFetcherError, AfterSend,
    FetchListeners, FetchRequest, Pending,
};
use schedulecommit::pubkey::Pubkey;

fn key(b: u8) -> Pubkey {
    Pubkey { bytes: [b; 32] }
}

#[test]
fn only_the_first_caller_has_the_worker_asked() {
    let mut listeners: FetchListeners<u32> = FetchListeners::new();
    let first = fetch_account_chain_snapshot(&mut listeners, &key(1), Some(7), 100);
    assert_eq!(first.pending, Pending::Raise);
    let request = first.request.unwrap();
    assert!(request.pubkey == key(1));
    assert_eq!(request.min_context_slot, Some(7));
    let second = fetch_account_chain_snapshot(&mut listeners, &key(1), Some(9), 101);
    assert_eq!(second.pending, Pending::Raise);
    assert!(second.request.is_none());
    let other = fetch_account_chain_snapshot(&mut listeners, &key(2), None, 102);
    assert!(other.request.unwrap().min_context_slot.is_none());
    assert_eq!(listeners.take(&key(1)), Some(vec![100, 101]));
    assert_eq!(listeners.take(&key(2)), Some(vec![102]));
    assert_eq!(listeners.take(&key(3)), None);
}

#[test]
fn account_is_requested_again_once_it_was_answered() {
    let mut listeners: FetchListeners<u32> = FetchListeners::new();
    for k in [1u8, 2, 3] {
        assert!(listeners.register(&key(k), k as u32));
    }
    assert_eq!(listeners.take(&key(2)), Some(vec![2]));
    assert_eq!(listeners.take(&key(2)), None);
    assert!(!listeners.register(&key(1), 11));
    assert!(!listeners.register(&key(3), 13));
    assert!(listeners.register(&key(2), 12));
    assert_eq!(listeners.take(&key(1)), Some(vec![1, 11]));
    assert_eq!(listeners.take(&key(3)), Some(vec![3, 13]));
    assert_eq!(listeners.take(&key(2)), Some(vec![12]));
}

#[test]
fn unsent_request_is_handed_back() {
    let request = FetchRequest { pubkey: key(4), min_context_slot: Some(3) };
    match after_send::<()>(Err(request)) {
        AfterSend::Return { pending, error: AccountFetcherError::SendError(unsent) } => {
            assert_eq!(pending, Pending::Keep);
            assert!(unsent.pubkey == key(4));
            assert_eq!(unsent.min_context_slot, Some(3));
        }
        other => panic!("{other:?}"),
    }
    assert!(matches!(after_send::<()>(Ok(())), AfterSend::AwaitReply));
}

#[test]
fn listener_stays_after_a_failed_send() {
    let mut listeners: FetchListeners<u32> = FetchListeners::new();
    assert!(fetch_account_chain_snapshot(&mut listeners, &key(1), None, 1).request.is_some());
    let later = fetch_account_chain_snapshot(&mut listeners, &key(1), None, 2);
    assert!(later.request.is_none());
}

#[test]
fn reply_ends_the_call() {
    let answered = after_reply::<u8, &str>(Some(Ok(5)));
    assert_eq!(answered.pending, Pending::Lower);
    assert!(matches!(answered.result, Ok(5)));
    let failed = after_reply::<u8, &str>(Some(Err(AccountFetcherError::Failed("no"))));
    assert_eq!(failed.pending, Pending::Lower);
    assert!(matches!(failed.result, Err(AccountFetcherError::Failed("no"))));
    let lost = after_reply::<u8, &str>(None);
    assert_eq!(lost.pending, Pending::Lower);
    assert!(matches!(lost.result, Err(AccountFetcherError::RecvError)));
}
