//! The commands that a client sends to the quote server over TCP.

use crate::text::{
    chars_of, find_from, find_in, lemma_ascii_prefix, lemma_find_char_after, lemma_split_cons,
    lemma_split_no_sep, lemma_split_snoc, push_char, push_chars_of_string, spec_join, spec_split,
    split_range, string_eq_str, string_of, strings_view,
};
use vstd::prelude::*;
use vstd::string::StringExecFns;
use vstd::utf8::{decode_utf8, encode_utf8, is_ascii_chars};

verus! {

/// A stock's ticker.
pub type Ticker = String;

/// A command to the quote server. Addresses are socket addresses, carried
/// as the text they print as.
#[derive(Debug, PartialEq)]
pub enum Command {
    /// `STREAM <ip>:<port> <ticker,ticker...>`: start a stream.
    Stream((String, Vec<Ticker>)),
    /// `STOP <ip>:<port>`: stop a stream.
    Stop(String),
    /// `LIST`: list the connections.
    List,
    /// `DISCONNECT`: disconnect, ending all streams.
    Disconnect,
    /// `TICKERS`: list the tickers.
    Tickers,
    /// `HELP`: list the commands.
    Help,
    /// `SHUTDOWN <key>`: shut the server down.
    Shutdown(String),
}

/// The mathematical value of a [`Command`].
pub enum CommandView {
    Stream(Seq<char>, Seq<Seq<char>>),
    Stop(Seq<char>),
    List,
    Disconnect,
    Tickers,
    Help,
    Shutdown(Seq<char>),
}

impl View for Command {
    type V = CommandView;

    open spec fn view(&self) -> CommandView {
        match self {
            Command::Stream((a, t)) => CommandView::Stream(a@, strings_view(t@)),
            Command::Stop(a) => CommandView::Stop(a@),
            Command::List => CommandView::List,
            Command::Disconnect => CommandView::Disconnect,
            Command::Tickers => CommandView::Tickers,
            Command::Help => CommandView::Help,
            Command::Shutdown(k) => CommandView::Shutdown(k@),
        }
    }
}

/// The answer to a malformed `STREAM` command.
pub const MSG_STREAM: &'static str = "Неправильная команда стрима\nSTREAM <ip>:<port> <ticker,ticker...>";

/// The answer to a malformed `STOP` command.
pub const MSG_STOP: &'static str = "Неправильная команда стоп\nSTOP <ip>:<port>";

/// The answer to a malformed `SHUTDOWN` command.
pub const MSG_SHUTDOWN: &'static str = "Неправильная команда SHUTDOWN\nSHUTDOWN <key>";

/// The answer to an unknown command.
pub const MSG_UNKNOWN: &'static str = "Неизсветная команда. Отправьте HELP";

/// What `str::to_uppercase` gives for `s`: the Unicode uppercase mapping.
pub uninterp spec fn spec_to_uppercase(s: Seq<char>) -> Seq<char>;

/// Whether `SocketAddr::from_str` reads `s` as a socket address.
pub uninterp spec fn spec_socket_addr_ok(s: Seq<char>) -> bool;

/// The text that the socket address read from `s` prints as.
pub uninterp spec fn spec_socket_addr_text(s: Seq<char>) -> Seq<char>;

/// `SocketAddr::from_str` on `s`, then the address printed with its
/// `Display`: `None` exactly when `from_str` refuses `s`. What it accepts
/// (an IPv4 or IPv6 address with a port) and how it prints are not written
/// out here; they depend on `s` alone.
#[verifier::external_body]
fn socket_addr_text(s: &str) -> (r: Option<String>)
    ensures
        r is Some <==> spec_socket_addr_ok(s@),
        r matches Some(t) ==> t@ == spec_socket_addr_text(s@),
{
    match s.parse::<core::net::SocketAddr>() {
        Ok(a) => Some(a.to_string()),
        Err(_) => None,
    }
}

/// The ASCII uppercase of an ASCII character.
pub open spec fn ascii_upper(c: char) -> char {
    if 'a' <= c && c <= 'z' {
        ((c as u32) - 32) as char
    } else {
        c
    }
}

/// The ASCII uppercase of a text.
pub open spec fn ascii_upper_seq(s: Seq<char>) -> Seq<char> {
    s.map_values(|c: char| ascii_upper(c))
}

/// Whether the keyword of the command text `c` is upper-cased as ASCII
/// text is.
pub open spec fn keyword_upper_ascii(c: Seq<char>) -> bool {
    spec_to_uppercase(command_prefix(c)) == ascii_upper_seq(command_prefix(c))
}

/// `str::to_uppercase`: the Unicode uppercase of `s`; on ASCII text each
/// lower-case letter becomes its capital and every other character stays.
#[verifier::external_body]
pub(crate) fn str_to_uppercase(s: &str) -> (r: String)
    ensures
        r@ == spec_to_uppercase(s@),
        is_ascii_chars(s@) ==> r@ == ascii_upper_seq(s@),
{
    s.to_uppercase()
}

/// The text of the first four bytes of `c`.
pub open spec fn command_prefix(c: Seq<char>) -> Seq<char> {
    decode_utf8(encode_utf8(c).subrange(0, 4))
}

/// Whether the first four bytes of `c` end on a character boundary (else
/// reading the command slices inside a character and panics).
pub open spec fn command_readable(c: Seq<char>) -> bool {
    &&& encode_utf8(c).len() >= 4
    &&& vstd::utf8::is_char_boundary(encode_utf8(c), 4)
}

/// What reading the command text `c` gives. The command is named by the
/// upper case of its first four bytes; the address of a stream or a stop
/// must read as a socket address, and is kept as the text it prints as.
pub open spec fn spec_parse(c: Seq<char>) -> Result<CommandView, &'static str> {
    let kw = spec_to_uppercase(command_prefix(c));
    if kw == "STRE"@ {
        let parts = spec_split(c, ' ');
        if parts.len() != 3 || !spec_socket_addr_ok(parts[1]) {
            Err(MSG_STREAM)
        } else {
            Ok(CommandView::Stream(spec_socket_addr_text(parts[1]), spec_split(parts[2], ',')))
        }
    } else if kw == "STOP"@ {
        let parts = spec_split(c, ' ');
        if parts.len() != 2 || !spec_socket_addr_ok(parts[1]) {
            Err(MSG_STOP)
        } else {
            Ok(CommandView::Stop(spec_socket_addr_text(parts[1])))
        }
    } else if kw == "LIST"@ {
        Ok(CommandView::List)
    } else if kw == "DISC"@ {
        Ok(CommandView::Disconnect)
    } else if kw == "TICK"@ {
        Ok(CommandView::Tickers)
    } else if kw == "HELP"@ {
        Ok(CommandView::Help)
    } else if kw == "SHUT"@ {
        match find_from(c, seq![' '], 0) {
            None => Err(MSG_SHUTDOWN),
            Some(i) => Ok(CommandView::Shutdown(c.subrange(i + 1, c.len() as int))),
        }
    } else {
        Err(MSG_UNKNOWN)
    }
}

/// The text of a command.
pub open spec fn spec_command_text(c: CommandView) -> Seq<char> {
    match c {
        CommandView::Stream(a, t) => "STREAM "@ + a + " "@ + spec_join(t, ','),
        CommandView::Stop(a) => "STOP "@ + a,
        CommandView::Disconnect => "DISCONNECT"@,
        CommandView::List => "LIST"@,
        CommandView::Tickers => "TICKERS"@,
        CommandView::Help => "HELP"@,
        CommandView::Shutdown(k) => "SHUTDOWN "@ + k,
    }
}

/// Joining pieces that hold no `sep` and splitting the result at `sep`
/// gives the pieces back.
pub proof fn lemma_split_join(ts: Seq<Seq<char>>, sep: char)
    requires
        ts.len() > 0,
        forall|i: int| 0 <= i < ts.len() ==> !(#[trigger] ts[i]).contains(sep),
    ensures
        spec_split(spec_join(ts, sep), sep) == ts,
    decreases ts.len(),
{
    if ts.len() == 1 {
        lemma_split_no_sep(ts[0], sep);
        assert(seq![ts[0]] =~= ts);
    } else {
        let init = ts.drop_last();
        assert forall|i: int| 0 <= i < init.len() implies !(#[trigger] init[i]).contains(sep) by {
            assert(init[i] == ts[i]);
        }
        lemma_split_join(init, sep);
        assert(!ts.last().contains(sep));
        lemma_split_snoc(spec_join(init, sep), ts.last(), sep);
        assert(init + seq![ts.last()] =~= ts);
    }
}

/// A character other than `sep` that no piece holds is not in their join.
proof fn lemma_join_without(ts: Seq<Seq<char>>, sep: char, c: char)
    requires
        c != sep,
        forall|i: int| 0 <= i < ts.len() ==> !(#[trigger] ts[i]).contains(c),
    ensures
        !spec_join(ts, sep).contains(c),
    decreases ts.len(),
{
    if ts.len() == 1 {
        assert(!ts[0].contains(c));
    } else if ts.len() > 1 {
        let init = ts.drop_last();
        assert forall|i: int| 0 <= i < init.len() implies !(#[trigger] init[i]).contains(c) by {
            assert(init[i] == ts[i]);
        }
        lemma_join_without(init, sep, c);
        let a = spec_join(init, sep);
        let b = ts.last();
        assert(!b.contains(c));
        let j = spec_join(ts, sep);
        if j.contains(c) {
            let k = choose|k: int| 0 <= k < j.len() && j[k] == c;
            if k < a.len() {
                assert(a[k] == c);
            } else if k > a.len() {
                assert(b[k - a.len() - 1] == c);
            }
        }
    }
}

/// Whether `a` reads as a socket address that prints as `a`.
pub open spec fn addr_reads_back(a: Seq<char>) -> bool {
    spec_socket_addr_ok(a) && spec_socket_addr_text(a) == a
}

/// The commands whose text reads back as the same command: a stream's
/// address holds no space, reads as a socket address and prints as itself,
/// and its tickers, at least one, hold no space and no comma; a stop's
/// address likewise.
pub open spec fn reads_back(c: CommandView) -> bool {
    match c {
        CommandView::Stream(a, ts) => {
            &&& !a.contains(' ')
            &&& addr_reads_back(a)
            &&& ts.len() > 0
            &&& forall|i: int| 0 <= i < ts.len() ==> !(#[trigger] ts[i]).contains(' ') && !ts[i].contains(',')
        },
        CommandView::Stop(a) => !a.contains(' ') && addr_reads_back(a),
        _ => true,
    }
}

/// The text of a command that [`reads_back`] can be read (its first four
/// bytes are ASCII), and reading it gives the command back, the keyword
/// being upper-cased as `str::to_uppercase` does on ASCII text.
pub proof fn lemma_command_round_trip(c: CommandView)
    requires
        reads_back(c),
    ensures
        command_readable(spec_command_text(c)),
        is_ascii_chars(command_prefix(spec_command_text(c))),
        keyword_upper_ascii(spec_command_text(c)) ==> spec_parse(spec_command_text(c)) == Ok::<
            CommandView,
            &'static str,
        >(c),
{
    reveal_strlit("STREAM ");
    reveal_strlit(" ");
    reveal_strlit("STOP ");
    reveal_strlit("DISCONNECT");
    reveal_strlit("LIST");
    reveal_strlit("TICKERS");
    reveal_strlit("HELP");
    reveal_strlit("SHUTDOWN ");
    reveal_strlit("STRE");
    reveal_strlit("STOP");
    reveal_strlit("DISC");
    reveal_strlit("TICK");
    reveal_strlit("SHUT");
    let t = spec_command_text(c);
    let p = t.take(4);
    assert(t.len() >= 4);
    assert(is_ascii_chars(p));
    lemma_ascii_prefix(t, 4);
    assert(command_prefix(t) == p);
    assert(ascii_upper_seq(p) =~= p);
    match c {
        CommandView::Stream(a, ts) => {
            let x = seq!['S', 'T', 'R', 'E', 'A', 'M'];
            let j = spec_join(ts, ',');
            assert(t =~= x + seq![' '] + (a + seq![' '] + j));
            assert(p =~= "STRE"@);
            assert(!x.contains(' '));
            lemma_split_cons(x, a + seq![' '] + j, ' ');
            lemma_split_cons(a, j, ' ');
            lemma_join_without(ts, ',', ' ');
            lemma_split_no_sep(j, ' ');
            lemma_split_join(ts, ',');
            let parts = spec_split(t, ' ');
            assert(parts =~= seq![x, a, j]);
            assert(parts[1] == a && parts[2] == j);
        },
        CommandView::Stop(a) => {
            let x = seq!['S', 'T', 'O', 'P'];
            assert(t =~= x + seq![' '] + a);
            assert(p =~= "STOP"@);
            assert(p[2] != "STRE"@[2]);
            assert(!x.contains(' '));
            lemma_split_cons(x, a, ' ');
            lemma_split_no_sep(a, ' ');
            assert(spec_split(t, ' ') =~= seq![x, a]);
        },
        CommandView::Shutdown(k) => {
            let x = seq!['S', 'H', 'U', 'T', 'D', 'O', 'W', 'N'];
            assert(t =~= x + seq![' '] + k);
            assert(p =~= "SHUT"@);
            assert(p[1] != "STRE"@[1] && p[1] != "STOP"@[1] && p[0] != "LIST"@[0]);
            assert(p[0] != "DISC"@[0] && p[0] != "TICK"@[0] && p[0] != "HELP"@[0]);
            assert(!x.contains(' '));
            lemma_find_char_after(x, k, ' ');
            assert(t.subrange(9, t.len() as int) =~= k);
        },
        CommandView::Disconnect => {
            assert(p =~= "DISC"@);
            assert(p[0] != "STRE"@[0] && p[0] != "STOP"@[0] && p[0] != "LIST"@[0]);
        },
        CommandView::Tickers => {
            assert(p =~= "TICK"@);
            assert(p[0] != "STRE"@[0] && p[0] != "STOP"@[0] && p[0] != "LIST"@[0]);
            assert(p[0] != "DISC"@[0]);
        },
        CommandView::Help => {
            assert(p =~= "HELP"@);
            assert(p[0] != "STRE"@[0] && p[0] != "STOP"@[0] && p[0] != "LIST"@[0]);
            assert(p[0] != "DISC"@[0] && p[0] != "TICK"@[0]);
        },
        CommandView::List => {
            assert(p =~= "LIST"@);
            assert(p[0] != "STRE"@[0] && p[0] != "STOP"@[0]);
        },
    }
}

fn push_join(out: &mut String, pieces: &Vec<String>, sep: char)
    ensures
        final(out)@ == old(out)@ + spec_join(strings_view(pieces@), sep),
{
    let mut i: usize = 0;
    while i < pieces.len()
        invariant
            i <= pieces.len(),
            out@ == old(out)@ + spec_join(strings_view(pieces@.take(i as int)), sep),
        decreases pieces.len() - i,
    {
        if i > 0 {
            push_char(out, sep);
        }
        push_chars_of_string(out, &pieces[i]);
        proof {
            let t = strings_view(pieces@.take(i + 1 as int));
            assert(t.drop_last() =~= strings_view(pieces@.take(i as int)));
            if i == 0 {
                assert(strings_view(pieces@.take(0)) =~= Seq::<Seq<char>>::empty());
            }
        }
        i = i + 1;
    }
    assert(pieces@.take(i as int) =~= pieces@);
}

impl Command {
    /// Reads a command (see [`spec_parse`]).
    pub fn parse(s: &str) -> (r: Result<Self, &'static str>)
        requires
            command_readable(s@),
        ensures
            match r {
                Ok(c) => spec_parse(s@) == Ok::<CommandView, &'static str>(c@),
                Err(e) => spec_parse(s@) == Err::<CommandView, &'static str>(e),
            },
            is_ascii_chars(command_prefix(s@)) ==> keyword_upper_ascii(s@),
    {
        let (head, _) = s.split_at(4);
        proof {
            vstd::utf8::encode_utf8_decode_utf8(head@);
        }
        let kw = str_to_uppercase(head);
        let c = chars_of(s);
        let n = c.len();
        assert(c@.subrange(0, n as int) =~= c@);
        if string_eq_str(&kw, "STRE") {
            let parts = split_range(&c, 0, n, ' ');
            if parts.len() != 3 {
                return Err(MSG_STREAM);
            }
            let p2 = chars_of(parts[2].as_str());
            assert(p2@.subrange(0, p2@.len() as int) =~= p2@);
            let tickers = split_range(&p2, 0, p2.len(), ',');
            match socket_addr_text(parts[1].as_str()) {
                None => Err(MSG_STREAM),
                Some(addr) => Ok(Command::Stream((addr, tickers))),
            }
        } else if string_eq_str(&kw, "STOP") {
            let parts = split_range(&c, 0, n, ' ');
            if parts.len() != 2 {
                return Err(MSG_STOP);
            }
            match socket_addr_text(parts[1].as_str()) {
                None => Err(MSG_STOP),
                Some(addr) => Ok(Command::Stop(addr)),
            }
        } else if string_eq_str(&kw, "LIST") {
            Ok(Command::List)
        } else if string_eq_str(&kw, "DISC") {
            Ok(Command::Disconnect)
        } else if string_eq_str(&kw, "TICK") {
            Ok(Command::Tickers)
        } else if string_eq_str(&kw, "HELP") {
            Ok(Command::Help)
        } else if string_eq_str(&kw, "SHUT") {
            let space = [' '];
            assert(space@ =~= seq![' ']);
            match find_in(&c, n, &space, 0) {
                None => Err(MSG_SHUTDOWN),
                Some(i) => Ok(Command::Shutdown(string_of(&c, i + 1, n))),
            }
        } else {
            Err(MSG_UNKNOWN)
        }
    }

    /// The text of the command (see [`spec_command_text`]).
    pub fn to_string(&self) -> (r: String)
        ensures
            r@ == spec_command_text(self@),
    {
        let mut r = String::new();
        match self {
            Command::Stream((addr, tickers)) => {
                r.append("STREAM ");
                push_chars_of_string(&mut r, addr);
                r.append(" ");
                push_join(&mut r, tickers, ',');
            },
            Command::Stop(addr) => {
                r.append("STOP ");
                push_chars_of_string(&mut r, addr);
            },
            Command::Disconnect => r.append("DISCONNECT"),
            Command::List => r.append("LIST"),
            Command::Tickers => r.append("TICKERS"),
            Command::Help => r.append("HELP"),
            Command::Shutdown(key) => {
                r.append("SHUTDOWN ");
                push_chars_of_string(&mut r, key);
            },
        }
        assert(r@ =~= spec_command_text(self@));
        r
    }
}

} // verus!
