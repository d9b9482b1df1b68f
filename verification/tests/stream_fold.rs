use matrix_ircd::poll::Polled;
use matrix_ircd::stream_fold::StreamFold;

#[test]
fn folds_until_it_is_enough() {
    let add = |state: &u32, item: Result<u32, ()>| match item {
        Ok(n) => (*state + n, *state + n >= 5),
        Err(()) => (0, true),
    };
    let mut fold = StreamFold::new("stream", 1u32, add);
    assert!(matches!(fold.poll(Polled::Pending), Polled::Pending));
    assert!(matches!(fold.poll(Polled::Ready(Some(Ok(2)))), Polled::Pending));
    assert!(matches!(fold.poll(Polled::Ready(Some(Ok(2)))), Polled::Ready(Some(()))));
    assert!(matches!(fold.poll(Polled::Ready(None)), Polled::Ready(None)));
    assert_eq!(*fold.stream_mut(), "stream");
    assert_eq!(fold.into_parts(), ("stream", 5));
}

#[test]
fn each_item_is_folded_once() {
    let list = |state: &Vec<u32>, item: Result<u32, u32>| {
        let mut next = state.clone();
        next.push(item.unwrap_or_else(|e| e));
        (next, false)
    };
    let mut fold = StreamFold::new((), Vec::new(), list);
    let polled = [
        Polled::Ready(Some(Ok(1))),
        Polled::Pending,
        Polled::Ready(Some(Err(2))),
        Polled::Ready(Some(Ok(1))),
        Polled::Ready(None),
    ];
    for item in polled {
        let _ = fold.poll(item);
    }
    assert_eq!(fold.into_parts().1, [1, 2, 1]);
}
