//! The multiplexer's state machine: a token-keyed registry of connections,
//! a monotonic token counter, the run flag, and the control-plane command
//! protocol.
//!
//! The host process owns the poller, the listening socket and the channel
//! pair; this type owns every decision. Events flow in as plain values
//! ([`Service::dispatch`], [`Service::on_conn_readable`], ...) and the
//! decisions flow back as [`Action`] values the host performs.

use crate::service::connection::{frame_decodes, frames_decode_prefix, message_fits, Connection};
use crate::wire_protocol::error::WireError;
use crate::wire_protocol::frames::{front_bad, spec_frames, spec_rest};
use crate::wire_protocol::message::{
    spec_decodes_to, spec_message_bytes, spec_message_len, spec_parse, Message,
};
use vstd::prelude::*;

verus! {

/// Token of the listening socket.
pub const SOCKET_TOKEN: usize = 0;

/// Token of the inbound control channel.
pub const CHANNEL_TOKEN: usize = 1;

/// First token handed to a connection; all below are reserved.
pub const FIRST_CONN_TOKEN: usize = 8;

/// One item of the control-plane channels: an application message tagged
/// with its connection's token, or an administrative command.
#[derive(Clone, Debug)]
pub enum ServiceMessage {
    Message(usize, Message),
    Command(Command),
}

/// Administrative commands and their replies.
#[derive(Clone, Debug)]
pub enum Command {
    /// Stop the run loop at the next iteration.
    Shutdown,
    /// Remove the connection holding this token. Also emitted outbound as
    /// the close notification of a connection lost to an I/O or protocol
    /// error.
    CloseConn { id: usize },
    /// Bind a listening socket at `addr`; answered by `ListenReply`.
    Listen { id: u32, addr: String },
    /// Open an outbound connection to `addr`; answered by `LinkToReply`.
    LinkTo { id: u32, addr: String },
    /// Outcome of a `Listen` command.
    ListenReply { id: u32, success: bool, msg: String },
    /// Outcome of a `LinkTo` command, with the allocated token on success.
    LinkToReply { id: u32, success: bool, token: Option<usize>, msg: String },
}

/// What the host must perform after a decision.
#[derive(Clone, Debug)]
pub enum Action {
    /// Emit this item on the outbound channel.
    Reply(ServiceMessage),
    /// Bind a listening socket; report the outcome via
    /// [`Service::on_listen_result`].
    Bind { id: u32, addr: String },
    /// Open an outbound connection; report the outcome via
    /// [`Service::on_connect_result`].
    ConnectOut { id: u32, addr: String },
    /// Release the poller registration of a removed connection.
    Deregister { token: usize },
}

/// No two connections hold the same token.
pub open spec fn tokens_unique(conns: Seq<Connection>) -> bool {
    forall|i: int, j: int|
        0 <= i < j < conns.len() ==> #[trigger] conns[i].spec_token() != #[trigger] conns[j].spec_token()
}

/// Every token lies in the allocatable range below the counter.
pub open spec fn tokens_bounded(conns: Seq<Connection>, counter: usize) -> bool {
    forall|i: int|
        0 <= i < conns.len() ==> FIRST_CONN_TOKEN <= #[trigger] conns[i].spec_token() < counter
}

/// Some connection holds `token`.
pub open spec fn has_token(conns: Seq<Connection>, token: usize) -> bool {
    exists|i: int| 0 <= i < conns.len() && #[trigger] conns[i].spec_token() == token
}

/// The index of the connection holding `token`.
pub open spec fn token_idx(conns: Seq<Connection>, token: usize) -> int {
    choose|i: int| 0 <= i < conns.len() && #[trigger] conns[i].spec_token() == token
}

/// The connection holding `token`.
pub open spec fn conn_with(conns: Seq<Connection>, token: usize) -> Connection {
    conns[token_idx(conns, token)]
}

/// With unique tokens, the holder of a token is unique: any index whose
/// connection holds the token is the one `token_idx` names.
proof fn lemma_token_idx_unique(conns: Seq<Connection>, token: usize, i: int)
    requires
        tokens_unique(conns),
        0 <= i < conns.len(),
        conns[i].spec_token() == token,
    ensures
        token_idx(conns, token) == i,
        has_token(conns, token),
{
    assert(has_token(conns, token));
    let j = token_idx(conns, token);
    assert(0 <= j < conns.len() && conns[j].spec_token() == token);
    if i < j {
        assert(conns[i].spec_token() != conns[j].spec_token());
    } else if j < i {
        assert(conns[j].spec_token() != conns[i].spec_token());
    }
}

/// Replacing a connection by one with the same token leaves every other
/// token's connection, and the token set, unchanged.
proof fn lemma_conns_update(pre: Seq<Connection>, i: int, c: Connection, counter: usize)
    requires
        tokens_unique(pre),
        tokens_bounded(pre, counter),
        0 <= i < pre.len(),
        c.spec_token() == pre[i].spec_token(),
    ensures
        tokens_unique(pre.update(i, c)),
        tokens_bounded(pre.update(i, c), counter),
        forall|t: usize| has_token(pre.update(i, c), t) == has_token(pre, t),
        forall|t: usize|
            has_token(pre, t) && t != pre[i].spec_token() ==> conn_with(pre.update(i, c), t)
                == conn_with(pre, t),
        conn_with(pre.update(i, c), pre[i].spec_token()) == c,
{
    let post = pre.update(i, c);
    assert(forall|j: int| 0 <= j < pre.len() ==> #[trigger] post[j].spec_token() == pre[j].spec_token());
    assert forall|t: usize| has_token(post, t) == has_token(pre, t) by {
        if has_token(pre, t) {
            let j = token_idx(pre, t);
            assert(post[j].spec_token() == t);
            assert(has_token(post, t));
        }
        if has_token(post, t) {
            let j = choose|j: int| 0 <= j < post.len() && #[trigger] post[j].spec_token() == t;
            assert(pre[j].spec_token() == t);
            assert(has_token(pre, t));
        }
    }
    assert forall|t: usize|
        has_token(pre, t) && t != pre[i].spec_token() implies conn_with(post, t) == conn_with(
        pre,
        t,
    ) by {
        let j = token_idx(pre, t);
        lemma_token_idx_unique(pre, t, j);
        lemma_token_idx_unique(post, t, j);
        assert(j != i);
    }
    lemma_token_idx_unique(post, pre[i].spec_token(), i);
}

/// Removing a connection removes exactly its token: every other token's
/// connection is kept.
proof fn lemma_conns_remove(pre: Seq<Connection>, i: int, counter: usize)
    requires
        tokens_unique(pre),
        tokens_bounded(pre, counter),
        0 <= i < pre.len(),
    ensures
        tokens_unique(pre.remove(i)),
        tokens_bounded(pre.remove(i), counter),
        !has_token(pre.remove(i), pre[i].spec_token()),
        forall|t: usize|
            t != pre[i].spec_token() ==> has_token(pre.remove(i), t) == has_token(pre, t),
        forall|t: usize|
            has_token(pre, t) && t != pre[i].spec_token() ==> conn_with(pre.remove(i), t)
                == conn_with(pre, t),
{
    let post = pre.remove(i);
    assert(forall|j: int| 0 <= j < i ==> #[trigger] post[j].spec_token() == pre[j].spec_token());
    assert(forall|j: int|
        i <= j < post.len() ==> #[trigger] post[j].spec_token() == pre[j + 1].spec_token());
    assert forall|t: usize| t != pre[i].spec_token() implies has_token(post, t) == has_token(
        pre,
        t,
    ) by {
        if has_token(pre, t) {
            let j = token_idx(pre, t);
            assert(j != i);
            if j < i {
                assert(post[j].spec_token() == t);
            } else {
                assert(post[j - 1].spec_token() == t);
            }
            assert(has_token(post, t));
        }
        if has_token(post, t) {
            let j = choose|j: int| 0 <= j < post.len() && #[trigger] post[j].spec_token() == t;
            if j < i {
                assert(pre[j].spec_token() == t);
            } else {
                assert(pre[j + 1].spec_token() == t);
            }
            assert(has_token(pre, t));
        }
    }
    if has_token(post, pre[i].spec_token()) {
        let j = choose|j: int|
            0 <= j < post.len() && #[trigger] post[j].spec_token() == pre[i].spec_token();
        if j < i {
            assert(pre[j].spec_token() == pre[i].spec_token());
        } else {
            assert(pre[j + 1].spec_token() == pre[i].spec_token());
        }
    }
    assert forall|t: usize|
        has_token(pre, t) && t != pre[i].spec_token() implies conn_with(post, t) == conn_with(
        pre,
        t,
    ) by {
        let j = token_idx(pre, t);
        lemma_token_idx_unique(pre, t, j);
        assert(j != i);
        if j < i {
            assert(post[j].spec_token() == t);
            lemma_token_idx_unique(post, t, j);
        } else {
            assert(post[j - 1].spec_token() == t);
            lemma_token_idx_unique(post, t, j - 1);
        }
    }
}

/// Appending a connection with a fresh token keeps every existing token's
/// connection.
proof fn lemma_conns_push(pre: Seq<Connection>, c: Connection, counter: usize)
    requires
        tokens_unique(pre),
        tokens_bounded(pre, counter),
        !has_token(pre, c.spec_token()),
    ensures
        tokens_unique(pre.push(c)),
        forall|t: usize|
            t != c.spec_token() ==> has_token(pre.push(c), t) == has_token(pre, t),
        has_token(pre.push(c), c.spec_token()),
        forall|t: usize|
            has_token(pre, t) ==> conn_with(pre.push(c), t) == conn_with(pre, t),
        conn_with(pre.push(c), c.spec_token()) == c,
{
    let post = pre.push(c);
    assert(forall|j: int| 0 <= j < pre.len() ==> #[trigger] post[j].spec_token() == pre[j].spec_token());
    assert(post[pre.len() as int] == c);
    assert forall|i: int, j: int| 0 <= i < j < post.len() implies #[trigger] post[i].spec_token()
        != #[trigger] post[j].spec_token() by {
        if j == pre.len() as int {
            if post[i].spec_token() == c.spec_token() {
                assert(has_token(pre, c.spec_token()));
            }
        }
    }
    assert forall|t: usize| t != c.spec_token() implies has_token(post, t) == has_token(
        pre,
        t,
    ) by {
        if has_token(pre, t) {
            let j = token_idx(pre, t);
            assert(post[j].spec_token() == t);
        }
        if has_token(post, t) {
            let j = choose|j: int| 0 <= j < post.len() && #[trigger] post[j].spec_token() == t;
            assert(j < pre.len());
            assert(pre[j].spec_token() == t);
        }
    }
    assert forall|t: usize| has_token(pre, t) implies conn_with(post, t) == conn_with(pre, t) by {
        let j = token_idx(pre, t);
        lemma_token_idx_unique(pre, t, j);
        if t == c.spec_token() {
            assert(false);
        }
        lemma_token_idx_unique(post, t, j);
    }
    lemma_token_idx_unique(post, c.spec_token(), pre.len() as int);
}

/// The multiplexer's own state: registry, token counter, run flag, and
/// whether a listening socket is currently bound.
pub struct Service {
    conns: Vec<Connection>,
    token_counter: usize,
    run: bool,
    listening: bool,
}

impl Service {
    /// The live connections.
    pub closed spec fn spec_conns(&self) -> Seq<Connection> {
        self.conns@
    }

    /// The next token to allocate; grows monotonically and is never
    /// reused within one service instance.
    pub closed spec fn spec_token_counter(&self) -> usize {
        self.token_counter
    }

    /// True until a `Shutdown` command is processed.
    pub closed spec fn spec_running(&self) -> bool {
        self.run
    }

    /// Whether a listening socket is currently bound.
    pub closed spec fn spec_listening(&self) -> bool {
        self.listening
    }

    /// A connection is live when some registry entry holds its token.
    pub open spec fn is_live(&self, token: usize) -> bool {
        has_token(self.spec_conns(), token)
    }

    /// The live connection holding `token`.
    pub open spec fn conn_of(&self, token: usize) -> Connection {
        conn_with(self.spec_conns(), token)
    }

    /// Well-formed service: tokens are pairwise distinct and lie between
    /// the reserved range and the counter.
    pub open spec fn wf(&self) -> bool {
        &&& tokens_unique(self.spec_conns())
        &&& tokens_bounded(self.spec_conns(), self.spec_token_counter())
        &&& self.spec_token_counter() >= FIRST_CONN_TOKEN
    }

    /// Everything but the registry: counter, run flag, listening flag.
    pub open spec fn same_control_state(&self, other: &Service) -> bool {
        &&& self.spec_token_counter() == other.spec_token_counter()
        &&& self.spec_running() == other.spec_running()
        &&& self.spec_listening() == other.spec_listening()
    }

    /// A fresh running service with an empty registry; `listening` records
    /// whether the host bound a listening socket eagerly at construction
    /// (it may instead bind one later through a `Listen` command).
    pub fn new(listening: bool) -> (r: Service)
        ensures
            r.wf(),
            r.spec_running(),
            r.spec_listening() == listening,
            r.spec_token_counter() == FIRST_CONN_TOKEN,
            r.spec_conns().len() == 0,
            forall|t: usize| !r.is_live(t),
    {
        Service { conns: Vec::new(), token_counter: FIRST_CONN_TOKEN, run: true, listening }
    }

    /// True until a `Shutdown` command is processed; the host's run loop
    /// polls no further once this is false.
    pub fn running(&self) -> (r: bool)
        ensures
            r == self.spec_running(),
    {
        self.run
    }

    /// Number of live connections.
    pub fn conn_count(&self) -> (r: usize)
        ensures
            r == self.spec_conns().len(),
    {
        self.conns.len()
    }

    /// Whether `token` names a live connection.
    pub fn is_conn(&self, token: usize) -> (r: bool)
        requires
            self.wf(),
        ensures
            r == self.is_live(token),
    {
        self.find_index(token).is_some()
    }

    /// The registry index of the connection holding `token`.
    fn find_index(&self, token: usize) -> (r: Option<usize>)
        requires
            self.wf(),
        ensures
            r matches Some(i) ==> i < self.spec_conns().len() && i as int == token_idx(
                self.spec_conns(),
                token,
            ) && self.is_live(token) && self.conn_of(token) == self.spec_conns()[i as int],
            r is None ==> !self.is_live(token),
    {
        let n = self.conns.len();
        let mut k: usize = 0;
        while k < n
            invariant
                k <= n,
                n == self.spec_conns().len(),
                self.wf(),
                forall|j: int| 0 <= j < k ==> #[trigger] self.spec_conns()[j].spec_token() != token,
            decreases n - k,
        {
            if self.conns[k].token() == token {
                proof {
                    lemma_token_idx_unique(self.spec_conns(), token, k as int);
                }
                return Some(k);
            }
            k = k + 1;
        }
        proof {
            if self.is_live(token) {
                let j = token_idx(self.spec_conns(), token);
            }
        }
        None
    }

    /// Allocates the next token and registers a fresh connection under it,
    /// for a socket the host just accepted or connected out.
    ///
    /// The counter is monotonic and never reused, so the token is distinct
    /// from every live one; when the counter space is exhausted (a
    /// documented lifetime bound of one service instance) no connection is
    /// accepted.
    pub fn accept_conn(&mut self) -> (r: Option<usize>)
        requires
            old(self).wf(),
        ensures
            final(self).wf(),
            final(self).spec_running() == old(self).spec_running(),
            final(self).spec_listening() == old(self).spec_listening(),
            old(self).spec_token_counter() == usize::MAX ==> r is None && *final(self) == *old(self),
            old(self).spec_token_counter() < usize::MAX ==> (r matches Some(t) && {
                &&& t == old(self).spec_token_counter()
                &&& !old(self).is_live(t)
                &&& final(self).is_live(t)
                &&& final(self).spec_token_counter() == old(self).spec_token_counter() + 1
                &&& forall|u: usize| u != t ==> final(self).is_live(u) == old(self).is_live(u)
                &&& forall|u: usize|
                    old(self).is_live(u) ==> final(self).conn_of(u) == old(self).conn_of(u)
                &&& final(self).conn_of(t).spec_token() == t
                &&& final(self).conn_of(t).read_buffer() == Seq::<u8>::empty()
                &&& final(self).conn_of(t).write_queue() == Seq::<u8>::empty()
                &&& !final(self).conn_of(t).wants_write()
            }),
    {
        if self.token_counter == usize::MAX {
            return None;
        }
        let token = self.token_counter;
        self.token_counter = self.token_counter + 1;
        let conn = Connection::new(token);
        proof {
            if has_token(self.conns@, token) {
                let j = token_idx(self.conns@, token);
            }
            lemma_conns_push(self.conns@, conn, self.token_counter);
        }
        self.conns.push(conn);
        Some(token)
    }

    /// Removes the connection holding `token`, if live: the host must
    /// first release its poller registration (the `Deregister` action),
    /// and exactly when the removal was forced by an I/O or protocol
    /// failure — not by an explicit close command — one close notification
    /// follows on the outbound channel.
    pub fn remove_conn(&mut self, token: usize, io_failure: bool) -> (r: (bool, Vec<Action>))
        requires
            old(self).wf(),
        ensures
            final(self).wf(),
            final(self).same_control_state(old(self)),
            r.0 == old(self).is_live(token),
            !final(self).is_live(token),
            forall|u: usize| u != token ==> final(self).is_live(u) == old(self).is_live(u),
            forall|u: usize|
                old(self).is_live(u) && u != token ==> final(self).conn_of(u) == old(self).conn_of(u),
            !r.0 ==> *final(self) == *old(self) && r.1@ == Seq::<Action>::empty(),
            r.0 && io_failure ==> r.1@ =~= seq![
                Action::Deregister { token },
                Action::Reply(ServiceMessage::Command(Command::CloseConn { id: token })),
            ],
            r.0 && !io_failure ==> r.1@ =~= seq![Action::Deregister { token }],
    {
        let i = match self.find_index(token) {
            Some(i) => i,
            None => {
                return (false, Vec::new());
            },
        };
        proof {
            lemma_conns_remove(self.conns@, i as int, self.token_counter);
        }
        self.conns.remove(i);
        let mut actions: Vec<Action> = Vec::new();
        actions.push(Action::Deregister { token });
        if io_failure {
            actions.push(
                Action::Reply(ServiceMessage::Command(Command::CloseConn { id: token })),
            );
        }
        (true, actions)
    }

    /// Executes one administrative command.
    ///
    /// `Shutdown` clears the run flag and nothing ever sets it again, so
    /// the host's loop exits after the current event batch. `CloseConn`
    /// removes a connection without a close notification. `Listen` and
    /// `LinkTo` decide nothing themselves: the host performs the bind or
    /// connect and reports back. Inbound reply variants are ignored.
    pub fn service_command(&mut self, command: Command) -> (r: Vec<Action>)
        requires
            old(self).wf(),
        ensures
            final(self).wf(),
            final(self).spec_token_counter() == old(self).spec_token_counter(),
            final(self).spec_listening() == old(self).spec_listening(),
            command matches Command::Shutdown ==> !final(self).spec_running() && final(self).spec_conns() == old(self).spec_conns() && r@ == Seq::<Action>::empty(),
            !(command matches Command::Shutdown) ==> final(self).spec_running() == old(self).spec_running(),
            command matches Command::CloseConn { id } ==> {
                &&& !final(self).is_live(id)
                &&& forall|u: usize| u != id ==> final(self).is_live(u) == old(self).is_live(u)
                &&& forall|u: usize|
                    old(self).is_live(u) && u != id ==> final(self).conn_of(u) == old(self).conn_of(u)
                &&& (old(self).is_live(id) ==> r@ =~= seq![Action::Deregister { token: id }])
                &&& (!old(self).is_live(id) ==> r@ == Seq::<Action>::empty())
            },
            command matches Command::Listen { id, addr } ==> final(self).spec_conns() == old(self).spec_conns() && r@ =~= seq![Action::Bind { id, addr }],
            command matches Command::LinkTo { id, addr } ==> final(self).spec_conns() == old(self).spec_conns() && r@ =~= seq![Action::ConnectOut { id, addr }],
            (command matches Command::ListenReply { .. } || command
                matches Command::LinkToReply { .. }) ==> *final(self) == *old(self) && r@ == Seq::<
                Action,
            >::empty(),
    {
        match command {
            Command::Shutdown => {
                self.run = false;
                Vec::new()
            },
            Command::CloseConn { id } => {
                let (_, actions) = self.remove_conn(id, false);
                actions
            },
            Command::Listen { id, addr } => {
                let mut actions: Vec<Action> = Vec::new();
                actions.push(Action::Bind { id, addr });
                actions
            },
            Command::LinkTo { id, addr } => {
                let mut actions: Vec<Action> = Vec::new();
                actions.push(Action::ConnectOut { id, addr });
                actions
            },
            Command::ListenReply { .. } => Vec::new(),
            Command::LinkToReply { .. } => Vec::new(),
        }
    }

    /// Routes an application message from the inbound channel to the
    /// addressed connection's outbound queue, registering write interest.
    ///
    /// A token with no live connection drops the message silently
    /// (`Ok(false)`); a message whose frame cannot be encoded leaves the
    /// connection untouched and reports the error.
    pub fn handle_message(&mut self, id: usize, message: &Message) -> (r: Result<bool, WireError>)
        requires
            old(self).wf(),
        ensures
            final(self).wf(),
            final(self).same_control_state(old(self)),
            forall|u: usize| final(self).is_live(u) == old(self).is_live(u),
            forall|u: usize|
                old(self).is_live(u) && u != id ==> final(self).conn_of(u) == old(self).conn_of(u),
            !old(self).is_live(id) ==> *final(self) == *old(self) && r == Ok::<bool, WireError>(
                false,
            ),
            old(self).is_live(id) ==> ({
                let c0 = old(self).conn_of(id);
                &&& (message_fits(c0.write_queue(), *message) ==> {
                    &&& r == Ok::<bool, WireError>(true)
                    &&& final(self).conn_of(id).write_queue() == c0.write_queue()
                        + spec_message_bytes(*message)
                    &&& final(self).conn_of(id).wants_write()
                    &&& final(self).conn_of(id).read_buffer() == c0.read_buffer()
                })
                &&& (!message_fits(c0.write_queue(), *message) ==> {
                    &&& r == Err::<bool, WireError>(WireError::FrameTooLarge)
                    &&& final(self).conn_of(id).write_queue() == c0.write_queue()
                    &&& final(self).conn_of(id).read_buffer() == c0.read_buffer()
                    &&& final(self).conn_of(id).wants_write() == c0.wants_write()
                })
            }),
    {
        let i = match self.find_index(id) {
            Some(i) => i,
            None => {
                return Ok(false);
            },
        };
        let ghost pre = self.conns@;
        let mut c = self.conns.remove(i);
        let outcome = c.enqueue(message);
        self.conns.insert(i, c);
        proof {
            assert(self.conns@ =~= pre.update(i as int, c));
            lemma_conns_update(pre, i as int, c, self.token_counter);
        }
        match outcome {
            Ok(_) => Ok(true),
            Err(e) => Err(e),
        }
    }

    /// Feeds bytes read from a connection's socket through frame
    /// reassembly: every complete frame decodes to one outbound
    /// `ServiceMessage` tagged with the token, in wire order.
    ///
    /// A corrupt stream — a frame that cannot decode, or a front no suffix
    /// could complete — removes the connection after the sound messages
    /// are delivered, and yields the deregister action and exactly one
    /// close notification.
    pub fn on_conn_readable(&mut self, token: usize, chunk: &[u8]) -> (r: (
        Vec<ServiceMessage>,
        Vec<Action>,
    ))
        requires
            old(self).wf(),
        ensures
            final(self).wf(),
            final(self).same_control_state(old(self)),
            forall|u: usize| u != token ==> final(self).is_live(u) == old(self).is_live(u),
            forall|u: usize|
                old(self).is_live(u) && u != token ==> final(self).conn_of(u) == old(
                    self,
                ).conn_of(u),
            !old(self).is_live(token) ==> *final(self) == *old(self) && r.0@ == Seq::<
                ServiceMessage,
            >::empty() && r.1@ == Seq::<Action>::empty(),
            old(self).is_live(token) ==> ({
                let c0 = old(self).conn_of(token);
                let fits = c0.read_buffer().len() + chunk@.len() <= usize::MAX;
                let buf = c0.read_buffer() + chunk@;
                let frames = spec_frames(buf);
                let k = frames_decode_prefix(frames);
                let corrupt = !fits || k < frames.len() || front_bad(spec_rest(buf));
                &&& (fits ==> {
                    &&& r.0@.len() == k
                    &&& forall|n: int|
                        0 <= n < k ==> (spec_parse(#[trigger] frames[n]) matches Some(p) && r.0@[n]
                            matches ServiceMessage::Message(t, m) && t == token
                            && spec_decodes_to(p, m))
                })
                &&& (!fits ==> r.0@ == Seq::<ServiceMessage>::empty())
                &&& (corrupt ==> !final(self).is_live(token) && r.1@ =~= seq![
                    Action::Deregister { token },
                    Action::Reply(ServiceMessage::Command(Command::CloseConn { id: token })),
                ])
                &&& (!corrupt ==> {
                    &&& final(self).is_live(token)
                    &&& final(self).conn_of(token).read_buffer() == spec_rest(buf)
                    &&& final(self).conn_of(token).write_queue() == c0.write_queue()
                    &&& final(self).conn_of(token).wants_write() == c0.wants_write()
                    &&& r.1@ == Seq::<Action>::empty()
                })
            }),
    {
        let i = match self.find_index(token) {
            Some(i) => i,
            None => {
                return (Vec::new(), Vec::new());
            },
        };
        let ghost pre = self.conns@;
        let mut c = self.conns.remove(i);
        proof {
            lemma_conns_remove(pre, i as int, self.token_counter);
        }
        if usize::MAX - c.buffered_len() < chunk.len() {
            let mut actions: Vec<Action> = Vec::new();
            actions.push(Action::Deregister { token });
            actions.push(
                Action::Reply(ServiceMessage::Command(Command::CloseConn { id: token })),
            );
            return (Vec::new(), actions);
        }
        c.receive_bytes(chunk);
        let (mut msgs, corrupt) = c.drain_messages();
        let ghost all = msgs@;
        let mut out: Vec<ServiceMessage> = Vec::new();
        while msgs.len() > 0
            invariant
                out@.len() + msgs@.len() == all.len(),
                msgs@ =~= all.subrange(out@.len() as int, all.len() as int),
                forall|n: int|
                    0 <= n < out@.len() ==> #[trigger] out@[n] == ServiceMessage::Message(
                        token,
                        all[n],
                    ),
            decreases msgs@.len(),
        {
            let m = msgs.remove(0);
            out.push(ServiceMessage::Message(token, m));
        }
        if corrupt {
            let mut actions: Vec<Action> = Vec::new();
            actions.push(Action::Deregister { token });
            actions.push(
                Action::Reply(ServiceMessage::Command(Command::CloseConn { id: token })),
            );
            (out, actions)
        } else {
            self.conns.insert(i, c);
            proof {
                assert(self.conns@ =~= pre.update(i as int, c));
                lemma_conns_update(pre, i as int, c, self.token_counter);
            }
            (out, Vec::new())
        }
    }

    /// Records that the socket accepted `written` bytes of a connection's
    /// outbound queue: the flushed prefix leaves the queue and write
    /// interest stays registered exactly while bytes remain.
    pub fn on_conn_writable(&mut self, token: usize, written: usize)
        requires
            old(self).wf(),
        ensures
            final(self).wf(),
            final(self).same_control_state(old(self)),
            forall|u: usize| final(self).is_live(u) == old(self).is_live(u),
            forall|u: usize|
                old(self).is_live(u) && u != token ==> final(self).conn_of(u) == old(
                    self,
                ).conn_of(u),
            !old(self).is_live(token) ==> *final(self) == *old(self),
            old(self).is_live(token) ==> ({
                let c0 = old(self).conn_of(token);
                let k = if written <= c0.write_queue().len() {
                    written as int
                } else {
                    c0.write_queue().len() as int
                };
                &&& final(self).conn_of(token).write_queue() == c0.write_queue().subrange(
                    k,
                    c0.write_queue().len() as int,
                )
                &&& final(self).conn_of(token).wants_write() == (final(self).conn_of(
                    token,
                ).write_queue().len() > 0)
                &&& final(self).conn_of(token).read_buffer() == c0.read_buffer()
            }),
    {
        let i = match self.find_index(token) {
            Some(i) => i,
            None => {
                return ;
            },
        };
        let ghost pre = self.conns@;
        let mut c = self.conns.remove(i);
        c.mark_written(written);
        self.conns.insert(i, c);
        proof {
            assert(self.conns@ =~= pre.update(i as int, c));
            lemma_conns_update(pre, i as int, c, self.token_counter);
        }
    }

    /// The queued outbound bytes of a live connection, for the host to
    /// write to the socket.
    pub fn writable_bytes_of(&self, token: usize) -> (r: Option<&[u8]>)
        requires
            self.wf(),
        ensures
            r matches Some(b) ==> self.is_live(token) && b@ == self.conn_of(token).write_queue(),
            r is None ==> !self.is_live(token),
    {
        match self.find_index(token) {
            Some(i) => Some(self.conns[i].writable_bytes()),
            None => None,
        }
    }

    /// Whether a live connection currently asks for writable events.
    pub fn write_interest_of(&self, token: usize) -> (r: bool)
        requires
            self.wf(),
        ensures
            self.is_live(token) ==> r == self.conn_of(token).wants_write(),
            !self.is_live(token) ==> !r,
    {
        match self.find_index(token) {
            Some(i) => self.conns[i].write_interest(),
            None => false,
        }
    }

    /// Routes one readiness event by token identity.
    ///
    /// The listening socket and the control channel have reserved tokens
    /// and their own plans; a hangup or error on a connection removes it
    /// at once, with one close notification; otherwise the host reads
    /// and/or writes as flagged. Every watched source is re-armed by the
    /// host after its event (the poller is edge-triggered and one-shot).
    pub fn dispatch(&mut self, token: usize, readable: bool, writable: bool, hup_or_error: bool)
        -> (r: DispatchPlan)
        requires
            old(self).wf(),
        ensures
            final(self).wf(),
            final(self).same_control_state(old(self)),
            token == SOCKET_TOKEN ==> *final(self) == *old(self) && r is Accept,
            token == CHANNEL_TOKEN ==> *final(self) == *old(self) && r is DrainChannel,
            token != SOCKET_TOKEN && token != CHANNEL_TOKEN && hup_or_error ==> {
                &&& !final(self).is_live(token)
                &&& forall|u: usize| u != token ==> final(self).is_live(u) == old(self).is_live(u)
                &&& forall|u: usize|
                    old(self).is_live(u) && u != token ==> final(self).conn_of(u) == old(
                        self,
                    ).conn_of(u)
                &&& (r matches DispatchPlan::Closed(a) && (old(self).is_live(token) ==> a@ =~= seq![
                    Action::Deregister { token },
                    Action::Reply(ServiceMessage::Command(Command::CloseConn { id: token })),
                ]) && (!old(self).is_live(token) ==> a@ == Seq::<Action>::empty()))
            },
            token != SOCKET_TOKEN && token != CHANNEL_TOKEN && !hup_or_error ==> *final(self)
                == *old(self) && (old(self).is_live(token) ==> (r matches DispatchPlan::Conn {
                read,
                write,
            } && read == readable && write == writable)) && (!old(self).is_live(token)
                ==> r is Ignore),
    {
        if token == SOCKET_TOKEN {
            DispatchPlan::Accept
        } else if token == CHANNEL_TOKEN {
            DispatchPlan::DrainChannel
        } else if hup_or_error {
            let (_, actions) = self.remove_conn(token, true);
            DispatchPlan::Closed(actions)
        } else if self.is_conn(token) {
            DispatchPlan::Conn { read: readable, write: writable }
        } else {
            DispatchPlan::Ignore
        }
    }

    /// Records the outcome of a `Listen` command the host performed and
    /// builds the reply: a failed bind changes nothing — the service keeps
    /// running with its connections intact — while a successful one marks
    /// the service as listening.
    pub fn on_listen_result(&mut self, id: u32, success: bool, msg: String) -> (r: ServiceMessage)
        ensures
            final(self).spec_conns() == old(self).spec_conns(),
            final(self).spec_token_counter() == old(self).spec_token_counter(),
            final(self).spec_running() == old(self).spec_running(),
            final(self).spec_listening() == (old(self).spec_listening() || success),
            old(self).wf() ==> final(self).wf(),
            r == ServiceMessage::Command(Command::ListenReply { id, success, msg }),
    {
        if success {
            self.listening = true;
        }
        ServiceMessage::Command(Command::ListenReply { id, success, msg })
    }

    /// Records the outcome of a `LinkTo` command the host performed and
    /// builds the reply: a successful connect registers a fresh connection
    /// and reports its token; a failed one changes nothing. A connect that
    /// succeeded after the token space was exhausted is reported as a
    /// failure, since no connection can be registered for it.
    pub fn on_connect_result(&mut self, id: u32, success: bool, msg: String) -> (r: (
        Option<usize>,
        ServiceMessage,
    ))
        requires
            old(self).wf(),
        ensures
            final(self).wf(),
            final(self).spec_running() == old(self).spec_running(),
            final(self).spec_listening() == old(self).spec_listening(),
            !success ==> *final(self) == *old(self) && r.0 is None && r.1
                == ServiceMessage::Command(
                Command::LinkToReply { id, success: false, token: None, msg },
            ),
            success && old(self).spec_token_counter() == usize::MAX ==> *final(self) == *old(self)
                && r.0 is None && r.1 == ServiceMessage::Command(
                Command::LinkToReply { id, success: false, token: None, msg },
            ),
            success && old(self).spec_token_counter() < usize::MAX ==> (r.0 matches Some(t) && {
                &&& t == old(self).spec_token_counter()
                &&& !old(self).is_live(t)
                &&& final(self).is_live(t)
                &&& final(self).spec_token_counter() == old(self).spec_token_counter() + 1
                &&& forall|u: usize| u != t ==> final(self).is_live(u) == old(self).is_live(u)
                &&& forall|u: usize|
                    old(self).is_live(u) ==> final(self).conn_of(u) == old(self).conn_of(u)
                &&& final(self).conn_of(t).spec_token() == t
                &&& final(self).conn_of(t).read_buffer() == Seq::<u8>::empty()
                &&& final(self).conn_of(t).write_queue() == Seq::<u8>::empty()
                &&& r.1 == ServiceMessage::Command(
                    Command::LinkToReply { id, success: true, token: Some(t), msg },
                )
            }),
    {
        if !success {
            return (
                None,
                ServiceMessage::Command(
                    Command::LinkToReply { id, success: false, token: None, msg },
                ),
            );
        }
        match self.accept_conn() {
            Some(t) => (
                Some(t),
                ServiceMessage::Command(
                    Command::LinkToReply { id, success: true, token: Some(t), msg },
                ),
            ),
            None => (
                None,
                ServiceMessage::Command(
                    Command::LinkToReply { id, success: false, token: None, msg },
                ),
            ),
        }
    }
}

/// What the host must do with one readiness event.
pub enum DispatchPlan {
    /// Accept new sockets until would-block, register each via
    /// [`Service::accept_conn`], then re-arm the listener.
    Accept,
    /// Drain the inbound channel without blocking, handing each item to
    /// [`Service::handle_message`] or [`Service::service_command`], then
    /// re-arm the channel.
    DrainChannel,
    /// The connection was removed; perform the actions.
    Closed(Vec<Action>),
    /// Read and/or write the connection's socket as flagged.
    Conn { read: bool, write: bool },
    /// No live connection holds this token; nothing to do.
    Ignore,
}

/// Token uniqueness: in a well-formed service no two registry entries —
/// no two simultaneously live connections — hold the same token.
pub proof fn lemma_token_uniqueness(s: Service, i: int, j: int)
    requires
        s.wf(),
        0 <= i < j < s.spec_conns().len(),
    ensures
        s.spec_conns()[i].spec_token() != s.spec_conns()[j].spec_token(),
{
}

/// Every live token lies below the counter, so every token a later
/// allocation can hand out — the counter only grows — is fresh.
pub proof fn lemma_live_token_bounded(s: Service, t: usize)
    requires
        s.wf(),
        s.is_live(t),
    ensures
        FIRST_CONN_TOKEN <= t < s.spec_token_counter(),
{
    let i = token_idx(s.spec_conns(), t);
    assert(0 <= i < s.spec_conns().len() && s.spec_conns()[i].spec_token() == t);
}

} // verus!
