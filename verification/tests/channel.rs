use comm::channel::{
    decoder, encoder, Async, AsyncSink, CloseAction, CloseEvent, DecodeAction, Decoder, Encoder,
    Message,
};

type Event = CloseEvent<u8, &'static str>;

fn close(enc: &mut Encoder<&'static str, ()>, event: Event) -> CloseAction<&'static str, &'static str> {
    enc.close(event)
}

#[test]
fn items_are_wrapped() {
    let enc: Encoder<&str, ()> = encoder("sink", None);
    assert_eq!(enc.start_send(5u8), Message::Data(5));
}

#[test]
fn refused_item_is_handed_back() {
    let enc: Encoder<&str, ()> = encoder("sink", None);
    let message = enc.start_send(5u8);
    assert_eq!(
        enc.finish_send::<u8, &str>(Ok(AsyncSink::NotReady(message))),
        Ok(AsyncSink::NotReady(5))
    );
    assert_eq!(enc.finish_send::<u8, &str>(Ok(AsyncSink::Ready)), Ok(AsyncSink::Ready));
    assert_eq!(enc.finish_send::<u8, &str>(Err("broken")), Err("broken"));
}

#[test]
fn inner_can_be_worked_on() {
    let mut enc: Encoder<Vec<u8>, ()> = encoder(vec![], None);
    enc.inner_mut().push(1);
    assert_eq!(*enc.inner_mut(), vec![1]);
    assert_eq!(*enc.pool(), None);
    let mut dec: Decoder<Vec<u8>> = decoder(vec![]);
    dec.inner_mut().push(2);
    assert_eq!(*dec.inner_mut(), vec![2]);
}

#[test]
fn pooled_connection_is_hung_up_and_recycled() {
    let mut enc = encoder("sink", Some(()));
    assert!(matches!(close(&mut enc, CloseEvent::Polled), CloseAction::OfferHangup));
    assert!(matches!(
        close(&mut enc, CloseEvent::HangupOffered(Ok(AsyncSink::Ready))),
        CloseAction::Flush
    ));
    assert!(enc.is_open());
    assert!(matches!(
        close(&mut enc, CloseEvent::Flushed(Ok(Async::Ready(())))),
        CloseAction::Recycle("sink")
    ));
    assert!(!enc.is_open());
}

#[test]
fn connection_without_pool_is_not_hung_up() {
    let mut enc = encoder("sink", None);
    assert!(matches!(close(&mut enc, CloseEvent::Polled), CloseAction::Flush));
    assert!(matches!(
        close(&mut enc, CloseEvent::Flushed(Ok(Async::Ready(())))),
        CloseAction::Report(Ok(Async::Ready(())))
    ));
    assert!(!enc.is_open());
}

#[test]
fn hangup_is_sent_once_over_many_attempts() {
    let mut enc = encoder("sink", Some(()));
    // No room for the hangup yet.
    assert!(matches!(close(&mut enc, CloseEvent::Polled), CloseAction::OfferHangup));
    assert!(matches!(
        close(&mut enc, CloseEvent::HangupOffered(Ok(AsyncSink::NotReady(Message::Hangup)))),
        CloseAction::Report(Ok(Async::NotReady))
    ));
    // The hangup goes out, but is not flushed.
    assert!(matches!(close(&mut enc, CloseEvent::Polled), CloseAction::OfferHangup));
    assert!(matches!(
        close(&mut enc, CloseEvent::HangupOffered(Ok(AsyncSink::Ready))),
        CloseAction::Flush
    ));
    assert!(matches!(
        close(&mut enc, CloseEvent::Flushed(Ok(Async::NotReady))),
        CloseAction::Report(Ok(Async::NotReady))
    ));
    // Flushing is all that is left.
    assert!(matches!(close(&mut enc, CloseEvent::Polled), CloseAction::Flush));
    assert!(matches!(
        close(&mut enc, CloseEvent::Flushed(Ok(Async::Ready(())))),
        CloseAction::Recycle("sink")
    ));
}

#[test]
fn errors_while_closing_are_reported() {
    let mut enc = encoder("sink", Some(()));
    assert!(matches!(
        close(&mut enc, CloseEvent::HangupOffered(Err("broken"))),
        CloseAction::Report(Err("broken"))
    ));
    assert!(matches!(close(&mut enc, CloseEvent::Polled), CloseAction::OfferHangup));
    let mut enc = encoder("sink", None);
    assert!(matches!(
        close(&mut enc, CloseEvent::Flushed(Err("broken"))),
        CloseAction::Report(Err("broken"))
    ));
    assert!(enc.is_open());
}

#[test]
fn decoder_reports_what_arrives() {
    let mut dec = decoder("stream");
    assert!(matches!(
        dec.poll::<u8, &str>(Ok(Async::Ready(Some(Message::Data(3))))),
        DecodeAction::Report(Ok(Async::Ready(Some(3))))
    ));
    assert!(matches!(
        dec.poll::<u8, &str>(Ok(Async::NotReady)),
        DecodeAction::Report(Ok(Async::NotReady))
    ));
    assert!(matches!(
        dec.poll::<u8, &str>(Err("broken")),
        DecodeAction::Report(Err("broken"))
    ));
    assert!(matches!(
        dec.poll::<u8, &str>(Ok(Async::Ready(None))),
        DecodeAction::Report(Ok(Async::Ready(None)))
    ));
    assert!(dec.is_open());
    assert_eq!(*dec.inner_mut(), "stream");
}

#[test]
fn decoder_gives_up_its_stream_on_hangup() {
    let mut dec = decoder("stream");
    assert!(matches!(
        dec.poll::<u8, &str>(Ok(Async::Ready(Some(Message::Hangup)))),
        DecodeAction::Recycle("stream")
    ));
    assert!(!dec.is_open());
}

#[test]
fn channel_is_received_as_sent() {
    let mut wire: Vec<Message<u8>> = vec![];
    let mut enc = encoder("sink", Some(()));
    for item in [10, 20, 30] {
        wire.push(enc.start_send(item));
    }
    let mut event: Event = CloseEvent::Polled;
    loop {
        match enc.close(event) {
            CloseAction::OfferHangup => {
                wire.push(Message::Hangup);
                event = CloseEvent::HangupOffered(Ok(AsyncSink::Ready));
            }
            CloseAction::Flush => event = CloseEvent::Flushed(Ok(Async::Ready(()))),
            CloseAction::Recycle(sink) => {
                assert_eq!(sink, "sink");
                break;
            }
            CloseAction::Report(_) => panic!("the connection belongs to the pool"),
        }
    }
    wire.push(Message::Data(99));

    let mut dec = decoder("stream");
    let mut received = vec![];
    let mut messages = wire.into_iter();
    loop {
        match dec.poll::<u8, &str>(Ok(Async::Ready(messages.next()))) {
            DecodeAction::Report(Ok(Async::Ready(Some(item)))) => received.push(item),
            DecodeAction::Recycle(stream) => {
                assert_eq!(stream, "stream");
                break;
            }
            DecodeAction::Report(_) => panic!("the channel ends with a hangup"),
        }
    }
    assert_eq!(received, vec![10, 20, 30]);
    assert_eq!(messages.next(), Some(Message::Data(99)));
}

#[test]
fn waiting_and_failing_lose_no_item() {
    let mut dec = decoder("stream");
    let mut received = vec![];
    for item in [1u8, 2, 3] {
        assert!(matches!(
            dec.poll::<u8, &str>(Ok(Async::NotReady)),
            DecodeAction::Report(Ok(Async::NotReady))
        ));
        assert!(matches!(
            dec.poll::<u8, &str>(Err("broken")),
            DecodeAction::Report(Err("broken"))
        ));
        match dec.poll::<u8, &str>(Ok(Async::Ready(Some(Message::Data(item))))) {
            DecodeAction::Report(Ok(Async::Ready(Some(item)))) => received.push(item),
            _ => panic!("an item arrived"),
        }
        assert!(dec.is_open());
    }
    assert_eq!(received, vec![1, 2, 3]);
}
