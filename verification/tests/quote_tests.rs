use bank_parser::quote::command::Command;
use bank_parser::quote::console::{parse_volume, read_console_line, ConsoleLine};
use bank_parser::quote::lock_order::LockQueue;
use bank_parser::quote::message::{
    close_from_bin, close_from_text, close_to_bin, close_to_text, read_tag, read_text_kind,
    tag_bytes, MessageTag, TextKind, DISCONNECT_TEXT, PING_TEXT, PONG_TEXT, WELCOME_TEXT,
};
use bank_parser::quote::registry::Subscriptions;
use bank_parser::quote::receiver::{ReceiverAction, ReceiverEvent, ReceiverState, ServerMessage};
use bank_parser::quote::secret::{gen_secret_key, secret_key_from_bytes};
use bank_parser::quote::session::{
    check_shutdown_key, list_text, tickers_answer, QuoteError, ReadOutcome, ServerBook,
    SessionAction, SessionEvent, SessionState,
};
use bank_parser::quote::stock::{split_quote_line, QuoteFields};
use bank_parser::quote::udp_stream::{
    Received, StreamAction, StreamEvent, StreamState, SubscriberEvent,
};

fn round_trip(text: &str) {
    let parsed = Command::parse(text);
    assert!(parsed.is_ok());
    assert_eq!(text, parsed.unwrap().to_string());
}

#[test]
fn test_command() {
    round_trip("STREAM 127.0.0.1:8080 BTC,ETH");
}

#[test]
fn test_command_stop() {
    round_trip("STOP 127.0.0.1:8080");
}

#[test]
fn test_command_help() {
    round_trip("HELP");
}

#[test]
fn test_command_shutdown_key() {
    round_trip("SHUTDOWN key");
}

#[test]
fn command_keywords_and_errors() {
    assert_eq!(Command::parse("tickers"), Ok(Command::Tickers));
    assert_eq!(Command::parse("disconnect"), Ok(Command::Disconnect));
    assert_eq!(Command::parse("LIST"), Ok(Command::List));
    assert_eq!(Command::parse("list").unwrap().to_string(), "LIST");
    assert_eq!(
        Command::parse("stream 1.2.3.4:5 A,,B"),
        Ok(Command::Stream((
            "1.2.3.4:5".to_string(),
            vec!["A".to_string(), "".to_string(), "B".to_string()]
        )))
    );
    assert_eq!(
        Command::parse("STREAM 1.2.3.4:5"),
        Err("Неправильная команда стрима\nSTREAM <ip>:<port> <ticker,ticker...>")
    );
    assert_eq!(Command::parse("STOP a b"), Err("Неправильная команда стоп\nSTOP <ip>:<port>"));
    assert_eq!(Command::parse("SHUTDOWN"), Err("Неправильная команда SHUTDOWN\nSHUTDOWN <key>"));
    assert_eq!(Command::parse("SHUTDOWN a b"), Ok(Command::Shutdown("a b".to_string())));
    assert_eq!(Command::parse("WHAT"), Err("Неизсветная команда. Отправьте HELP"));
    assert_eq!(Command::List.to_string(), "LIST");
}

#[test]
fn command_addresses_must_be_socket_addresses() {
    let stream_usage = "Неправильная команда стрима\nSTREAM <ip>:<port> <ticker,ticker...>";
    let stop_usage = "Неправильная команда стоп\nSTOP <ip>:<port>";
    assert_eq!(Command::parse("STREAM abc BTC"), Err(stream_usage));
    assert_eq!(Command::parse("STREAM 1.2.3.4 BTC"), Err(stream_usage));
    assert_eq!(Command::parse("STOP abc"), Err(stop_usage));
    assert_eq!(Command::parse("STOP 1.2.3.4:99999"), Err(stop_usage));
    let parsed = Command::parse("STREAM [0:0::1]:80 A").unwrap();
    assert_eq!(parsed, Command::Stream(("[::1]:80".to_string(), vec!["A".to_string()])));
    assert_eq!(parsed.to_string(), "STREAM [::1]:80 A");
    assert_eq!(Command::parse("stop [0::1]:7"), Ok(Command::Stop("[::1]:7".to_string())));
}

#[test]
fn correct_lock_order_does_not_panic() {
    let mut q = LockQueue::new();
    for n in 1..=4u8 {
        assert!(q.can_get(n));
        q.acquire(n);
    }
}

#[test]
fn lock_order_refuses_going_back_and_release_restores() {
    let mut q = LockQueue::new();
    assert!(q.can_get(4));
    q.acquire(4);
    assert!(!q.can_get(3));
    q.release(4);
    assert!(q.can_get(3));
    q.acquire(2);
    q.release(1);
    assert!(!q.can_get(1));
}

#[test]
fn lock_sequence_steps() {
    let mut q = LockQueue::new();
    q.acquire(1);
    q.acquire(3);
    assert!(!q.can_get(2));
    assert!(q.can_get(4));
}

#[test]
fn subscription_ids_come_in_call_order() {
    let mut subs = Subscriptions::new();
    let a = vec!["A".to_string()];
    assert_eq!(subs.subscribe(a.clone()), 0);
    assert_eq!(subs.subscribe(vec!["B".to_string()]), 1);
    assert!(subs.unsubscribe(0));
    assert!(!subs.unsubscribe(0));
    assert!(!subs.unsubscribe(7));
    assert_eq!(subs.next_id(), 2);
    assert_eq!(subs.subscribe(a.clone()), 2);
    assert_eq!(subs.subscribe(vec!["A".to_string(), "A".to_string()]), 3);
    assert_eq!(subs.audience_of(&"A".to_string()), vec![2, 3]);
    assert_eq!(subs.audience_of(&"B".to_string()), vec![1]);
}

#[test]
fn init_tag_reads_back() {
    assert_eq!(read_tag(&tag_bytes(MessageTag::Init)), Ok(MessageTag::Init));
    assert_eq!(read_text_kind(WELCOME_TEXT.as_bytes()), Ok(TextKind::Welcome));
}

#[test]
fn close_frames_read_back() {
    let ticker = "BCD".to_string();
    let bin = close_to_bin(&ticker);
    assert_eq!(bin, b"CLOSBCD".to_vec());
    assert_eq!(read_tag(&bin), Ok(MessageTag::Close));
    assert_eq!(close_from_bin(&bin), ticker);
    let text = close_to_text(&ticker);
    assert_eq!(text, "CLOSE STOCK: BCD");
    assert_eq!(read_text_kind(text.as_bytes()), Ok(TextKind::Close));
    assert_eq!(close_from_text(text.as_bytes()), ticker);
}

#[test]
fn pong_text_reads_back() {
    assert_eq!(read_tag(&tag_bytes(MessageTag::Pong)), Ok(MessageTag::Pong));
    assert_eq!(read_text_kind(PONG_TEXT.as_bytes()), Ok(TextKind::Pong));
}

#[test]
fn disconnect_text_reads_back() {
    assert_eq!(read_tag(&tag_bytes(MessageTag::Disconnect)), Ok(MessageTag::Disconnect));
    assert_eq!(read_text_kind(DISCONNECT_TEXT.as_bytes()), Ok(TextKind::Disconnect));
}

#[test]
fn message_framing_errors() {
    assert_eq!(read_tag(b"XYZW"), Err("Неизвестный тип сообщения"));
    assert_eq!(read_tag(&[0xff, 0, 0, 0]), Err("Ошибка кодирования"));
    assert_eq!(read_tag(&tag_bytes(MessageTag::Ping)), Ok(MessageTag::Ping));
    assert_eq!(read_tag(&tag_bytes(MessageTag::Stock)), Ok(MessageTag::Stock));
    // The text of a ping does not read back as one.
    assert_eq!(read_text_kind(PING_TEXT.as_bytes()), Ok(TextKind::Quote));
    assert_eq!(read_text_kind(&[0xff, 0xff, 0xff, 0xff]), Err("Ошибка кодирования"));
}

#[test]
fn secret_keys() {
    let key = gen_secret_key();
    assert_eq!(key.chars().count(), 32);
    assert!(key.chars().all(|c| (' '..='_').contains(&c)));
    assert_eq!(secret_key_from_bytes(&[0, 4, 255]), " !_");
}

#[test]
fn udp_stream_decisions() {
    let mut s = StreamState::new();
    assert_eq!(s.step(StreamEvent::Turn), StreamAction::Continue);
    assert_eq!(s.step(StreamEvent::Polled(SubscriberEvent::Update)), StreamAction::SendQuote);
    for _ in 0..10 {
        assert_eq!(s.step(StreamEvent::Sent(false)), StreamAction::Continue);
    }
    assert_eq!(s.count, 10);
    assert_eq!(s.step(StreamEvent::Turn), StreamAction::StopNotResponding);
    assert_eq!(s.step(StreamEvent::Received(Received::Ping)), StreamAction::SendPong);
    assert_eq!(s.count, 0);
    assert_eq!(s.step(StreamEvent::Received(Received::Pong)), StreamAction::SendPing);
    assert_eq!(s.step(StreamEvent::Received(Received::Failed)), StreamAction::Continue);
    assert_eq!(s.count, 1);
    assert_eq!(s.step(StreamEvent::PingClock(5_000_000_000)), StreamAction::Continue);
    assert_eq!(s.step(StreamEvent::PingClock(5_000_000_001)), StreamAction::StopPingLost);
    assert_eq!(
        s.step(StreamEvent::Polled(SubscriberEvent::Disconnect)),
        StreamAction::SendDisconnectAndStop
    );
}

#[test]
fn receiver_decisions() {
    let mut r = ReceiverState::new();
    assert_eq!(r.latency, 1000);
    for _ in 0..9 {
        assert_eq!(r.step(ReceiverEvent::Timeout), (ReceiverAction::KeepAlive, false));
    }
    assert_eq!(r.step(ReceiverEvent::Timeout), (ReceiverAction::KeepAliveAndReconnect, false));
    assert_eq!(r.count_reconnect, 1);
    for _ in 0..3 {
        assert_eq!(r.step(ReceiverEvent::Timeout), (ReceiverAction::KeepAliveAndReconnect, false));
    }
    assert_eq!(r.step(ReceiverEvent::Timeout), (ReceiverAction::KeepAliveAndReconnect, true));
    assert_eq!(r.step(ReceiverEvent::Message(ServerMessage::Ping(Some(1500)))), (ReceiverAction::Continue, false));
    assert_eq!(r.latency, 1500);
    assert_eq!(r.count_reconnect, 0);
    assert_eq!(r.step(ReceiverEvent::Message(ServerMessage::Ping(Some(20)))), (ReceiverAction::Continue, false));
    assert_eq!(r.latency, 1500);
    assert_eq!(r.step(ReceiverEvent::Message(ServerMessage::Stock)), (ReceiverAction::Forward, false));
    assert_eq!(r.step(ReceiverEvent::Failed), (ReceiverAction::ReconnectAndKeepAlive, false));
    assert_eq!(r.step(ReceiverEvent::Shutdown(true)), (ReceiverAction::ForwardDisconnectAndStop, false));
}

#[test]
fn session_decisions() {
    let mut s = SessionState::new();
    assert_eq!(s.step(SessionEvent::ShutdownFlag(false)), SessionAction::Continue);
    assert_eq!(s.step(SessionEvent::Read(ReadOutcome::Failed)), SessionAction::ReportInternalError);
    assert_eq!(s.count, 1);
    assert_eq!(s.step(SessionEvent::Read(ReadOutcome::Line)), SessionAction::Handle);
    assert_eq!(s.count, 0);
    assert_eq!(s.step(SessionEvent::Read(ReadOutcome::WouldBlock)), SessionAction::Sleep);
    assert_eq!(s.step(SessionEvent::Read(ReadOutcome::Closed)), SessionAction::Stop);
    assert_eq!(s.step(SessionEvent::ShutdownFlag(true)), SessionAction::SayFinishAndStop);
    assert_eq!(s.step(SessionEvent::ShutdownFlag(false)), SessionAction::SayFinishAndStop);
}

#[test]
fn server_book_commands() {
    let mut book = ServerBook::new();
    let client = "10.0.0.1:9000".to_string();
    let target = "10.0.0.2:7000".to_string();
    let id = book.stream(&client, &target, vec!["A".to_string(), "B".to_string()], false).unwrap();
    assert_eq!(id, 0);
    book.record_stream(&client, target.clone(), id);
    assert_eq!(book.audience_of(&"A".to_string()), vec![0]);
    assert_eq!(book.audience_of(&"C".to_string()), Vec::<u32>::new());
    assert_eq!(book.existing_stream(&client, &target), Some(0));
    assert_eq!(book.stream(&client, &target, vec![], false), Err(QuoteError::AlreadyExists));
    let listed = book.streams_of(&client).unwrap();
    assert_eq!(list_text(listed, &vec![true]), "0:10.0.0.2:7000:true\n");
    assert_eq!(book.stop(&client, &target), Ok((0, true)));
    assert_eq!(book.audience_of(&"A".to_string()), Vec::<u32>::new());
    assert_eq!(book.stop(&client, &target), Err(QuoteError::NotFound));
    assert_eq!(book.streams_of(&"1.1.1.1:1".to_string()).err(), Some(QuoteError::NotFound));
    let id2 = book.stream(&client, &target, vec!["B".to_string()], false).unwrap();
    assert_eq!(id2, 1);
    book.record_stream(&client, target.clone(), id2);
    assert_eq!(
        book.stream(&client, &target, vec![], true),
        Err(QuoteError::BadRequest("Поток уже запущен".to_string()))
    );
    book.record_stream(&client, target.clone(), id2);
    assert_eq!(book.disconnect(&client), Ok((vec![1], vec![true])));
    assert_eq!(book.disconnect(&client), Err(QuoteError::NotFound));
    let id3 = book.stream(&client, &target, vec!["B".to_string()], false).unwrap();
    book.record_stream(&client, target.clone(), id3);
    assert_eq!(book.close_all(), (vec![2], vec![true]));
}

#[test]
fn stop_finds_the_stream_that_stream_started() {
    let mut book = ServerBook::new();
    let client = "192.168.0.5:40000".to_string();
    let target = "127.0.0.1:8081".to_string();
    let id = book.stream(&client, &target, vec!["X".to_string()], false).unwrap();
    book.record_stream(&client, target.clone(), id);
    assert_eq!(book.existing_stream(&target, &target), None);
    assert_eq!(book.stop(&client, &target), Ok((id, true)));
    assert_eq!(book.stop(&client, &target), Err(QuoteError::NotFound));
}

#[test]
fn command_answers() {
    assert_eq!(tickers_answer(&vec![]), Err(QuoteError::NotFound));
    assert_eq!(tickers_answer(&vec!["A".to_string(), "B".to_string()]), Ok("A|B".to_string()));
    assert_eq!(check_shutdown_key(&"k".to_string(), &"k".to_string()), Ok(()));
    assert_eq!(check_shutdown_key(&"k".to_string(), &"x".to_string()), Err(QuoteError::KeyNotEqual));
}

#[test]
fn quote_lines() {
    assert_eq!(
        split_quote_line("BCD|100|0|123123"),
        Some(QuoteFields { ticker: "BCD".to_string(), price: "100".to_string(), volume: 0, timestamp: 123123 })
    );
    assert_eq!(
        split_quote_line("PEO|-150|523567|999999"),
        Some(QuoteFields { ticker: "PEO".to_string(), price: "-150".to_string(), volume: 523567, timestamp: 999999 })
    );
    assert_eq!(split_quote_line("A|1|2"), None);
    assert_eq!(split_quote_line("A|1|x|2"), None);
    assert_eq!(split_quote_line("A|1|4294967296|2"), None);
    assert_eq!(split_quote_line("A|1|+4294967295|2").map(|f| f.volume), Some(4294967295));
}

#[test]
fn console_lines() {
    assert_eq!(read_console_line("  exit \n"), ConsoleLine::Exit);
    assert_eq!(read_console_line("Exit"), ConsoleLine::Exit);
    assert_eq!(
        read_console_line("BCD 100 0\n"),
        ConsoleLine::Fields("BCD".to_string(), "100".to_string(), "0".to_string())
    );
    assert_eq!(
        read_console_line("\tA  1.5\u{a0}7 "),
        ConsoleLine::Fields("A".to_string(), "1.5".to_string(), "7".to_string())
    );
    assert_eq!(read_console_line("A 1"), ConsoleLine::WrongCount);
    assert_eq!(read_console_line("A 1 2\nB 3 4\n"), ConsoleLine::WrongCount);
    assert_eq!(parse_volume(&"42".to_string()), Some(42));
    assert_eq!(parse_volume(&"4294967296".to_string()), None);
    assert_eq!(parse_volume(&"-1".to_string()), None);
}
