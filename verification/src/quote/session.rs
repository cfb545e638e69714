//! What the server does for the commands of one TCP client, over its
//! bookkeeping, and the decisions of the loop that reads those commands.

use crate::quote::registry::{
    all_conns, audience, book_map, conns_view, index_of_id, index_of_socket, keys_distinct,
    lemma_index_of_socket, lemma_index_of_socket_push, spec_unsubscribed,
    subscriptions_wf, Conn, ConnView, Connections, EntryView, Subscriptions, SubscriptionsView,
};
use crate::text::{
    bool_text, push_bool, push_char, push_chars_of_string, push_decimal, spec_decimal, spec_join,
    strings_view,
};
use vstd::prelude::*;
use vstd::string::StringExecFns;

verus! {

/// The errors the server answers a command with.
#[derive(Debug, Clone, PartialEq)]
pub enum QuoteError {
    /// The server's state could not be reached.
    InternalError,
    /// The command is malformed or cannot be done.
    BadRequest(String),
    /// A stream to that address is already running.
    AlreadyExists,
    /// Nothing is known under that address.
    NotFound,
    /// The client's address could not be reached.
    NotConnection,
    /// The shutdown key is wrong.
    KeyNotEqual,
}

/// The mathematical value of a [`QuoteError`].
pub enum QuoteErrorView {
    InternalError,
    BadRequest(Seq<char>),
    AlreadyExists,
    NotFound,
    NotConnection,
    KeyNotEqual,
}

impl View for QuoteError {
    type V = QuoteErrorView;

    open spec fn view(&self) -> QuoteErrorView {
        match self {
            QuoteError::InternalError => QuoteErrorView::InternalError,
            QuoteError::BadRequest(s) => QuoteErrorView::BadRequest(s@),
            QuoteError::AlreadyExists => QuoteErrorView::AlreadyExists,
            QuoteError::NotFound => QuoteErrorView::NotFound,
            QuoteError::NotConnection => QuoteErrorView::NotConnection,
            QuoteError::KeyNotEqual => QuoteErrorView::KeyNotEqual,
        }
    }
}

/// The answer to a stream command for an address whose stream has ended.
pub const MSG_STREAM_ENDED: &'static str = "Поток уже запущен";

/// The server's bookkeeping: subscriptions and the clients' streams.
pub struct ServerBook {
    subs: Subscriptions,
    conns: Connections,
}

/// The mathematical value of a [`ServerBook`].
pub struct ServerBookView {
    pub subs: SubscriptionsView,
    pub conns: Seq<EntryView>,
}

impl View for ServerBook {
    type V = ServerBookView;

    closed spec fn view(&self) -> ServerBookView {
        ServerBookView { subs: self.subs@, conns: self.conns@ }
    }
}

/// The book's invariant: distinct subscriptions and distinct keys.
pub open spec fn book_wf(b: ServerBookView) -> bool {
    subscriptions_wf(b.subs) && keys_distinct(b.conns)
}

/// The stream to `socket` that the client at `domen` has, if any: its
/// subscription.
pub open spec fn spec_existing_stream(b: ServerBookView, domen: Seq<char>, socket: Seq<char>) -> Option<u32> {
    let m = book_map(b.conns);
    if m.contains_key(domen) && index_of_socket(m[domen], socket, 0) >= 0 {
        Some(m[domen][index_of_socket(m[domen], socket, 0)].1)
    } else {
        None
    }
}

/// The subscriptions after ending each of `ids` in turn.
pub open spec fn spec_unsubscribed_all(s: SubscriptionsView, ids: Seq<u32>) -> SubscriptionsView
    decreases ids.len(),
{
    if ids.len() == 0 {
        s
    } else {
        spec_unsubscribed(spec_unsubscribed_all(s, ids.drop_last()), ids.last())
    }
}

/// For each of `ids`, whether it was still subscribed when its turn came to
/// be ended.
pub open spec fn spec_still_subscribed(s: SubscriptionsView, ids: Seq<u32>) -> Seq<bool>
    decreases ids.len(),
{
    if ids.len() == 0 {
        seq![]
    } else {
        spec_still_subscribed(s, ids.drop_last()).push(
            index_of_id(spec_unsubscribed_all(s, ids.drop_last()).list, ids.last(), 0) >= 0,
        )
    }
}

/// The subscriptions of a list of streams.
pub open spec fn conn_ids(cs: Seq<ConnView>) -> Seq<u32> {
    cs.map_values(|c: ConnView| c.1)
}

impl ServerBook {
    /// No subscription and no stream.
    pub fn new() -> (r: Self)
        ensures
            book_wf(r@),
            r@.subs.next_id == 0,
            r@.subs.list.len() == 0,
            r@.conns.len() == 0,
    {
        ServerBook { subs: Subscriptions::new(), conns: Connections::new() }
    }

    /// The identifier the next subscription gets.
    pub fn next_id(&self) -> (r: u32)
        ensures
            r == self@.subs.next_id,
    {
        self.subs.next_id()
    }

    /// The subscriptions that follow `ticker`: those a new quote of it goes
    /// to.
    pub fn audience_of(&self, ticker: &String) -> (r: Vec<u32>)
        ensures
            r@ == audience(self@.subs.list, ticker@),
    {
        self.subs.audience_of(ticker)
    }

    /// The stream to `socket` that the client at `domen` has, if any.
    pub fn existing_stream(&self, domen: &String, socket: &String) -> (r: Option<u32>)
        requires
            book_wf(self@),
        ensures
            r == spec_existing_stream(self@, domen@, socket@),
    {
        match self.conns.get(domen) {
            None => None,
            Some(cs) => {
                let ghost v = conns_view(cs@);
                let mut j: usize = 0;
                while j < cs.len()
                    invariant
                        j <= cs.len(),
                        v == conns_view(cs@),
                        book_map(self@.conns).contains_key(domen@),
                        v == book_map(self@.conns)[domen@],
                        index_of_socket(v, socket@, 0) == index_of_socket(v, socket@, j as int),
                    decreases cs.len() - j,
                {
                    assert(v[j as int] == cs@[j as int]@);
                    if cs[j].socket == *socket {
                        assert(v[j as int].0 == socket@);
                        assert(index_of_socket(v, socket@, j as int) == j);
                        assert(book_map(self@.conns)[domen@] == v);
                        assert(v[j as int].1 == cs@[j as int].id);
                        return Some(cs[j].id);
                    }
                    j = j + 1;
                }
                None
            },
        }
    }

    /// A stream command from the client at `domen` for `socket`: when the
    /// client already has a stream there, it is refused, and an ended one is
    /// forgotten (`ended` tells whether it ended); otherwise a subscription
    /// to `tickers` is made and its identifier returned.
    pub fn stream(&mut self, domen: &String, socket: &String, tickers: Vec<String>, ended: bool) -> (r:
        Result<u32, QuoteError>)
        requires
            book_wf(old(self)@),
            old(self)@.subs.next_id < u32::MAX,
        ensures
            book_wf(final(self)@),
            match spec_existing_stream(old(self)@, domen@, socket@) {
                Some(_) => if ended {
                    let m = book_map(old(self)@.conns);
                    &&& r matches Err(e) && e@ == QuoteErrorView::BadRequest(MSG_STREAM_ENDED@)
                    &&& book_map(final(self)@.conns) == m.insert(
                        domen@,
                        m[domen@].remove(index_of_socket(m[domen@], socket@, 0)),
                    )
                    &&& final(self)@.subs == old(self)@.subs
                } else {
                    &&& r matches Err(e) && e@ == QuoteErrorView::AlreadyExists
                    &&& final(self)@ == old(self)@
                },
                None => {
                    &&& r == Ok::<u32, QuoteError>(old(self)@.subs.next_id)
                    &&& final(self)@.subs.next_id == old(self)@.subs.next_id + 1
                    &&& final(self)@.subs.list == old(self)@.subs.list.push(
                        (old(self)@.subs.next_id, crate::text::strings_view(tickers@)),
                    )
                    &&& final(self)@.conns == old(self)@.conns
                },
            },
    {
        match self.existing_stream(domen, socket) {
            Some(_) => {
                if ended {
                    let _ = self.conns.remove_conn(domen, socket);
                    Err(QuoteError::BadRequest(MSG_STREAM_ENDED.to_string()))
                } else {
                    Err(QuoteError::AlreadyExists)
                }
            },
            None => Ok(self.subs.subscribe(tickers)),
        }
    }

    /// Files a running stream of the client at `domen` to `socket` with
    /// subscription `id`, after the client's other streams. The stream the
    /// client has to `socket` is then the one it had, or else this one, so a
    /// later stop command for `socket` finds it.
    pub fn record_stream(&mut self, domen: &String, socket: String, id: u32)
        requires
            book_wf(old(self)@),
        ensures
            book_wf(final(self)@),
            final(self)@.subs == old(self)@.subs,
            book_map(final(self)@.conns) == book_map(old(self)@.conns).insert(
                domen@,
                (if book_map(old(self)@.conns).contains_key(domen@) {
                    book_map(old(self)@.conns)[domen@]
                } else {
                    Seq::<ConnView>::empty()
                }).push((socket@, id)),
            ),
            spec_existing_stream(final(self)@, domen@, socket@) == match spec_existing_stream(
                old(self)@,
                domen@,
                socket@,
            ) {
                Some(i) => Some(i),
                None => Some(id),
            },
    {
        let ghost s = socket@;
        self.conns.add(domen.clone(), socket, id);
        proof {
            let m0 = book_map(old(self)@.conns);
            let prev = if m0.contains_key(domen@) {
                m0[domen@]
            } else {
                Seq::<ConnView>::empty()
            };
            lemma_index_of_socket_push(prev, (s, id), s, 0);
            let m1 = book_map(self@.conns);
            assert(m1.contains_key(domen@));
            assert(m1[domen@] == prev.push((s, id)));
            if index_of_socket(prev, s, 0) >= 0 {
                lemma_index_of_socket(prev, s, 0);
                assert(prev.push((s, id))[index_of_socket(prev, s, 0)] == prev[index_of_socket(prev, s, 0)]);
            } else {
                assert(prev.push((s, id))[prev.len() as int] == (s, id));
            }
        }
    }

    /// A stop command from the client at `domen` for `socket`: its first
    /// stream there is forgotten and its subscription ended. Returns the
    /// subscription and whether it was still subscribed.
    pub fn stop(&mut self, domen: &String, socket: &String) -> (r: Result<(u32, bool), QuoteError>)
        requires
            book_wf(old(self)@),
        ensures
            book_wf(final(self)@),
            match spec_existing_stream(old(self)@, domen@, socket@) {
                Some(id) => {
                    let m = book_map(old(self)@.conns);
                    &&& r == Ok::<(u32, bool), QuoteError>(
                        (id, index_of_id(old(self)@.subs.list, id, 0) >= 0),
                    )
                    &&& book_map(final(self)@.conns) == m.insert(
                        domen@,
                        m[domen@].remove(index_of_socket(m[domen@], socket@, 0)),
                    )
                    &&& final(self)@.subs == spec_unsubscribed(old(self)@.subs, id)
                },
                None => {
                    &&& r matches Err(e) && e@ == QuoteErrorView::NotFound
                    &&& final(self)@ == old(self)@
                },
            },
    {
        match self.conns.remove_conn(domen, socket) {
            None => Err(QuoteError::NotFound),
            Some(id) => {
                let found = self.subs.unsubscribe(id);
                Ok((id, found))
            },
        }
    }

    /// The streams of the client at `domen`, for a list command.
    pub fn streams_of(&self, domen: &String) -> (r: Result<&Vec<Conn>, QuoteError>)
        requires
            book_wf(self@),
        ensures
            match r {
                Ok(v) => book_map(self@.conns).contains_key(domen@) && conns_view(v@) == book_map(
                    self@.conns,
                )[domen@],
                Err(e) => !book_map(self@.conns).contains_key(domen@) && e@ == QuoteErrorView::NotFound,
            },
    {
        match self.conns.get(domen) {
            Some(v) => Ok(v),
            None => Err(QuoteError::NotFound),
        }
    }

    /// Ends the subscriptions `ids` in turn; says for each whether it was
    /// still subscribed.
    fn unsubscribe_all(&mut self, ids: &Vec<u32>) -> (r: Vec<bool>)
        requires
            book_wf(old(self)@),
        ensures
            book_wf(final(self)@),
            final(self)@.subs == spec_unsubscribed_all(old(self)@.subs, ids@),
            final(self)@.conns == old(self)@.conns,
            r@ == spec_still_subscribed(old(self)@.subs, ids@),
    {
        let mut r: Vec<bool> = Vec::new();
        let mut i: usize = 0;
        assert(ids@.take(0) =~= Seq::<u32>::empty());
        while i < ids.len()
            invariant
                i <= ids.len(),
                book_wf(self@),
                self@.subs == spec_unsubscribed_all(old(self)@.subs, ids@.take(i as int)),
                self@.conns == old(self)@.conns,
                r@ == spec_still_subscribed(old(self)@.subs, ids@.take(i as int)),
            decreases ids.len() - i,
        {
            assert(ids@.take(i + 1).drop_last() =~= ids@.take(i as int));
            assert(ids@.take(i + 1).last() == ids@[i as int]);
            let found = self.subs.unsubscribe(ids[i]);
            r.push(found);
            i = i + 1;
        }
        assert(ids@.take(i as int) =~= ids@);
        r
    }

    /// A disconnect command from the client at `domen`: all its streams
    /// are forgotten and their subscriptions ended. Returns the
    /// subscriptions, each with whether it was still subscribed.
    pub fn disconnect(&mut self, domen: &String) -> (r: Result<(Vec<u32>, Vec<bool>), QuoteError>)
        requires
            book_wf(old(self)@),
        ensures
            book_wf(final(self)@),
            match r {
                Ok((ids, found)) => {
                    let m = book_map(old(self)@.conns);
                    &&& m.contains_key(domen@)
                    &&& ids@ == conn_ids(m[domen@])
                    &&& found@ == spec_still_subscribed(old(self)@.subs, ids@)
                    &&& book_map(final(self)@.conns) == m.remove(domen@)
                    &&& final(self)@.subs == spec_unsubscribed_all(old(self)@.subs, ids@)
                },
                Err(e) => {
                    &&& !book_map(old(self)@.conns).contains_key(domen@)
                    &&& e@ == QuoteErrorView::NotFound
                    &&& final(self)@ == old(self)@
                },
            },
    {
        match self.conns.take(domen) {
            None => Err(QuoteError::NotFound),
            Some(cs) => {
                let ids = ids_of(&cs);
                let found = self.unsubscribe_all(&ids);
                Ok((ids, found))
            },
        }
    }

    /// Ends everything at shutdown: every stream is forgotten and every
    /// subscription of a stream ended. Returns the streams' subscriptions,
    /// each with whether it was still subscribed.
    pub fn close_all(&mut self) -> (r: (Vec<u32>, Vec<bool>))
        requires
            book_wf(old(self)@),
        ensures
            book_wf(final(self)@),
            r.0@ == conn_ids(all_conns(old(self)@.conns)),
            r.1@ == spec_still_subscribed(old(self)@.subs, r.0@),
            final(self)@.conns.len() == 0,
            final(self)@.subs == spec_unsubscribed_all(old(self)@.subs, r.0@),
    {
        let cs = self.conns.take_all();
        let ids = ids_of(&cs);
        let found = self.unsubscribe_all(&ids);
        (ids, found)
    }
}

/// The subscriptions of a list of streams.
fn ids_of(cs: &Vec<Conn>) -> (r: Vec<u32>)
    ensures
        r@ == conn_ids(conns_view(cs@)),
{
    let mut r: Vec<u32> = Vec::new();
    let mut i: usize = 0;
    while i < cs.len()
        invariant
            i <= cs.len(),
            r@ == conn_ids(conns_view(cs@)).take(i as int),
        decreases cs.len() - i,
    {
        r.push(cs[i].id);
        assert(conn_ids(conns_view(cs@)).take(i + 1) =~= conn_ids(conns_view(cs@)).take(i as int).push(cs@[i as int].id));
        i = i + 1;
    }
    assert(conn_ids(conns_view(cs@)).take(i as int) =~= conn_ids(conns_view(cs@)));
    r
}


/// The answer to a help command.
pub const COMMAND_HELP: &'static str = "
Комманды:
stream <ip>:<port> <ticker,ticker...> - создать поток
stop <ip>:<port> - остановить поток
list - список подключений
disconnect - отключиться (завершив все потоки)
tickers - список тикеров
help - список комманд";

/// The answer to a list command: a line `<index>:<address>:<running>` for
/// each stream, `running` telling whether its thread still runs.
pub open spec fn spec_list_text(cs: Seq<ConnView>, running: Seq<bool>) -> Seq<char>
    decreases cs.len(),
{
    if cs.len() == 0 || running.len() != cs.len() {
        seq![]
    } else {
        spec_list_text(cs.drop_last(), running.drop_last()) + spec_decimal((cs.len() - 1) as nat)
            + seq![':'] + cs.last().0 + seq![':'] + bool_text(running.last()) + seq!['\n']
    }
}

/// The list answer is written line by line, one line per stream in order:
/// the answer for the first `k + 1` streams is the answer for the first `k`
/// followed by the line of stream `k`, which is its number, its address and
/// `true` when it still runs or `false` when it has ended, separated by
/// colons; and the answer for the first `k` streams begins the whole
/// answer.
pub proof fn lemma_list_lines(cs: Seq<ConnView>, running: Seq<bool>, k: int)
    requires
        cs.len() == running.len(),
        0 <= k < cs.len(),
    ensures
        spec_list_text(cs.take(k + 1), running.take(k + 1)) == spec_list_text(cs.take(k), running.take(k))
            + spec_decimal(k as nat) + ":"@ + cs[k].0 + ":"@ + (if running[k] {
            "true"@
        } else {
            "false"@
        }) + "\n"@,
        spec_list_text(cs.take(k), running.take(k)).is_prefix_of(spec_list_text(cs, running)),
    decreases cs.len() - k,
{
    reveal_strlit(":");
    reveal_strlit("true");
    reveal_strlit("false");
    reveal_strlit("\n");
    let c = cs.take(k + 1);
    let r = running.take(k + 1);
    assert(c.drop_last() =~= cs.take(k));
    assert(r.drop_last() =~= running.take(k));
    assert(c.last() == cs[k] && r.last() == running[k]);
    let line_text = spec_decimal(k as nat) + ":"@ + cs[k].0 + ":"@ + (if running[k] {
        "true"@
    } else {
        "false"@
    }) + "\n"@;
    assert(spec_list_text(c, r) =~= spec_list_text(cs.take(k), running.take(k)) + line_text);
    let a = spec_list_text(cs.take(k), running.take(k));
    let b = spec_list_text(c, r);
    assert(a.is_prefix_of(b)) by {
        assert(b.subrange(0, a.len() as int) =~= a);
    }
    if k + 1 < cs.len() {
        lemma_list_lines(cs, running, k + 1);
        let whole = spec_list_text(cs, running);
        assert(b.is_prefix_of(whole));
        assert(a.is_prefix_of(whole)) by {
            assert(whole.subrange(0, a.len() as int) =~= b.subrange(0, a.len() as int));
        }
    } else {
        assert(c =~= cs);
        assert(r =~= running);
    }
}

/// The answer to a list command (see [`spec_list_text`]).
pub fn list_text(cs: &Vec<Conn>, running: &Vec<bool>) -> (r: String)
    requires
        running.len() == cs.len(),
    ensures
        r@ == spec_list_text(conns_view(cs@), running@),
{
    let mut r = String::new();
    let mut i: usize = 0;
    assert(conns_view(cs@).take(0) =~= Seq::<ConnView>::empty());
    while i < cs.len()
        invariant
            i <= cs.len(),
            running.len() == cs.len(),
            r@ == spec_list_text(conns_view(cs@).take(i as int), running@.take(i as int)),
        decreases cs.len() - i,
    {
        push_decimal(&mut r, i as u128);
        push_char(&mut r, ':');
        push_chars_of_string(&mut r, &cs[i].socket);
        push_char(&mut r, ':');
        push_bool(&mut r, running[i]);
        push_char(&mut r, '\n');
        proof {
            let c = conns_view(cs@).take(i + 1);
            let b = running@.take(i + 1);
            assert(c.drop_last() =~= conns_view(cs@).take(i as int));
            assert(b.drop_last() =~= running@.take(i as int));
            assert(c.last() == cs@[i as int]@);
            assert(r@ =~= spec_list_text(c, b));
        }
        i = i + 1;
    }
    assert(conns_view(cs@).take(i as int) =~= conns_view(cs@));
    assert(running@.take(i as int) =~= running@);
    r
}

/// The answer to a tickers command: the tickers known, separated by `|`;
/// none known is an error.
pub fn tickers_answer(tickers: &Vec<String>) -> (r: Result<String, QuoteError>)
    ensures
        match r {
            Ok(s) => tickers@.len() > 0 && s@ == spec_join(strings_view(tickers@), '|'),
            Err(e) => tickers@.len() == 0 && e@ == QuoteErrorView::NotFound,
        },
{
    if tickers.len() == 0 {
        return Err(QuoteError::NotFound);
    }
    let mut r = String::new();
    let mut i: usize = 0;
    while i < tickers.len()
        invariant
            i <= tickers.len(),
            r@ == spec_join(strings_view(tickers@.take(i as int)), '|'),
        decreases tickers.len() - i,
    {
        if i > 0 {
            push_char(&mut r, '|');
        }
        push_chars_of_string(&mut r, &tickers[i]);
        proof {
            let t = strings_view(tickers@.take(i + 1));
            assert(t.drop_last() =~= strings_view(tickers@.take(i as int)));
            if i == 0 {
                assert(strings_view(tickers@.take(0)) =~= Seq::<Seq<char>>::empty());
            }
        }
        i = i + 1;
    }
    assert(tickers@.take(i as int) =~= tickers@);
    Ok(r)
}

/// A shutdown command with `key`: accepted when it is the server's secret
/// key.
pub fn check_shutdown_key(key: &String, secret: &String) -> (r: Result<(), QuoteError>)
    ensures
        match r {
            Ok(_) => key@ == secret@,
            Err(e) => key@ != secret@ && e@ == QuoteErrorView::KeyNotEqual,
        },
{
    if *key == *secret {
        Ok(())
    } else {
        Err(QuoteError::KeyNotEqual)
    }
}

/// What reading a command line gave.
pub enum ReadOutcome {
    /// The client closed the connection.
    Closed,
    /// A line was read.
    Line,
    /// Nothing to read yet.
    WouldBlock,
    /// The read failed.
    Failed,
}

/// What happened at a step of a client session's loop.
pub enum SessionEvent {
    /// The server's shutdown flag was read (false when it could not be).
    ShutdownFlag(bool),
    /// A read finished.
    Read(ReadOutcome),
}

/// What the session does next.
#[derive(PartialEq, Eq, Structural, Debug)]
pub enum SessionAction {
    /// Go on.
    Continue,
    /// Tell the client `Finish`, then stop.
    SayFinishAndStop,
    /// Stop.
    Stop,
    /// Handle the command read.
    Handle,
    /// Wait a little, then go on.
    Sleep,
    /// Tell the client of an internal error.
    ReportInternalError,
}

/// A client session's state: the failed reads counted, and whether a
/// shutdown was seen.
pub struct SessionState {
    pub count: u8,
    pub shutdown: bool,
}

/// The action of a session with shutdown seen `shutdown` on `e`.
pub open spec fn spec_session_action(shutdown: bool, e: SessionEvent) -> SessionAction {
    match e {
        SessionEvent::ShutdownFlag(f) => if shutdown || f {
            SessionAction::SayFinishAndStop
        } else {
            SessionAction::Continue
        },
        SessionEvent::Read(ReadOutcome::Closed) => SessionAction::Stop,
        SessionEvent::Read(ReadOutcome::Line) => SessionAction::Handle,
        SessionEvent::Read(ReadOutcome::WouldBlock) => SessionAction::Sleep,
        SessionEvent::Read(ReadOutcome::Failed) => SessionAction::ReportInternalError,
    }
}

impl SessionState {
    /// A new session.
    pub fn new() -> (r: Self)
        ensures
            r.count == 0,
            !r.shutdown,
    {
        SessionState { count: 0, shutdown: false }
    }

    /// Takes the event `e` into account and says what to do next: a
    /// shutdown once seen stays seen; a line read resets the failure count
    /// and a failed read adds one.
    pub fn step(&mut self, e: SessionEvent) -> (r: SessionAction)
        requires
            old(self).count < u8::MAX,
        ensures
            r == spec_session_action(old(self).shutdown, e),
            final(self).shutdown == (old(self).shutdown || (e matches SessionEvent::ShutdownFlag(f) && f)),
            final(self).count == (match e {
                SessionEvent::Read(ReadOutcome::Line) => 0,
                SessionEvent::Read(ReadOutcome::Failed) => old(self).count + 1,
                _ => old(self).count as int,
            }),
    {
        match e {
            SessionEvent::ShutdownFlag(f) => {
                if f {
                    self.shutdown = true;
                }
                if self.shutdown {
                    SessionAction::SayFinishAndStop
                } else {
                    SessionAction::Continue
                }
            },
            SessionEvent::Read(o) => match o {
                ReadOutcome::Closed => SessionAction::Stop,
                ReadOutcome::Line => {
                    self.count = 0;
                    SessionAction::Handle
                },
                ReadOutcome::WouldBlock => SessionAction::Sleep,
                ReadOutcome::Failed => {
                    self.count = self.count + 1;
                    SessionAction::ReportInternalError
                },
            },
        }
    }
}

} // verus!
