//! The relay's registry, identifier counter and event-dispatch decisions.

use crate::events::Action;
use crate::events::Event;
use crate::events::ReadOutcome;
use vstd::prelude::*;

verus! {

/// Identifier reserved for the listening socket; never assigned to a client.
pub const LISTENER_TOKEN: u64 = 0;

/// The relay's own state: the identifiers of the currently registered client
/// connections and the monotonically increasing counter that hands out the
/// next identifier. The open stream handles themselves, the listening socket
/// and the readiness source live outside this crate; every identifier held
/// here corresponds to exactly one socket registered with the readiness
/// source.
pub struct Relay {
    clients: Vec<u64>,
    next: u64,
}

impl Relay {
    /// The identifiers of the currently registered client connections.
    pub closed spec fn tokens(self) -> Seq<u64> {
        self.clients@
    }

    /// The identifier the next accepted connection will receive.
    pub closed spec fn next_token(self) -> u64 {
        self.next
    }

    /// Whether a client connection is registered under `t`.
    pub open spec fn registered(self, t: u64) -> bool {
        self.tokens().contains(t)
    }

    /// Well-formedness: identifiers start at 1, never reach the counter,
    /// and no identifier is held by two connections.
    pub open spec fn wf(self) -> bool {
        &&& 1 <= self.next_token()
        &&& self.tokens().no_duplicates()
        &&& forall|i: int|
            0 <= i < self.tokens().len() ==> 1 <= #[trigger] self.tokens()[i]
                < self.next_token()
    }

    /// A relay with an empty registry and the counter at 1.
    pub fn new() -> (r: Relay)
        ensures
            r.wf(),
            r.tokens() =~= Seq::<u64>::empty(),
            r.next_token() == 1,
    {
        Relay { clients: Vec::new(), next: 1 }
    }

    /// The number of currently registered client connections.
    pub fn client_count(&self) -> (n: usize)
        ensures
            n == self.tokens().len(),
    {
        self.clients.len()
    }

    /// The identifier the next accepted connection will receive.
    pub fn upcoming_token(&self) -> (t: u64)
        ensures
            t == self.next_token(),
    {
        self.next
    }

    /// Whether a client connection is currently registered under `t`.
    pub fn is_registered(&self, t: u64) -> (b: bool)
        ensures
            b == self.registered(t),
    {
        let mut i: usize = 0;
        while i < self.clients.len()
            invariant
                i <= self.clients.len(),
                forall|j: int| 0 <= j < i ==> self.clients@[j] != t,
            decreases self.clients.len() - i,
        {
            if self.clients[i] == t {
                return true;
            }
            i = i + 1;
        }
        false
    }

    /// Handles read-readiness of the listening socket, after the caller
    /// attempted to accept one pending connection. On success the new
    /// connection is registered under a fresh identifier, to be announced
    /// to the readiness source; a wake-up with nothing pending changes
    /// nothing.
    pub fn handle_listener_event(&mut self, accepted: bool) -> (act: Action)
        requires
            old(self).wf(),
            old(self).next_token() < u64::MAX,
        ensures
            final(self).wf(),
            listener_step(*old(self), *final(self), accepted, act),
    {
        if accepted {
            let id = self.next;
            proof {
                assert(!self.tokens().contains(id)) by {
                    if self.tokens().contains(id) {
                        let i = choose|i: int|
                            0 <= i < self.tokens().len() && self.tokens()[i] == id;
                        assert(self.tokens()[i] < self.next_token());
                    }
                }
            }
            self.clients.push(id);
            self.next = self.next + 1;
            proof {
                assert(self.tokens() =~= old(self).tokens().push(id));
                assert(self.tokens().no_duplicates()) by {
                    let s = old(self).tokens();
                    assert(forall|j: int| 0 <= j < s.len() ==> self.tokens()[j] == #[trigger] s[j]);
                    assert(self.tokens()[s.len() as int] == id);
                }
            }
            Action::Register(id)
        } else {
            Action::NoOp
        }
    }

    /// Handles read-readiness of the client socket registered under
    /// `token`, after the caller performed the read. Orderly closure
    /// deregisters the client; received bytes are handed back as a fan-out
    /// to every other registered client; a read error is only reported and
    /// the client stays registered; an unknown identifier is ignored.
    pub fn handle_client_event(&mut self, token: u64, outcome: ReadOutcome) -> (act: Action)
        requires
            old(self).wf(),
            outcome matches ReadOutcome::Data(p) ==> p@.len() >= 1,
        ensures
            final(self).wf(),
            client_step(*old(self), *final(self), token, outcome, act),
    {
        match outcome {
            ReadOutcome::Closed => {
                if self.is_registered(token) {
                    let remaining = collect_peers(&self.clients, token);
                    self.clients = remaining;
                    proof {
                        let pre = old(self).tokens();
                        lemma_peers_no_duplicates(pre, token);
                        lemma_peers_contains(pre, token, token);
                        assert forall|t: u64| t != token implies (self.registered(t)
                            <==> old(self).registered(t)) by {
                            lemma_peers_contains(pre, token, t);
                        }
                        assert forall|i: int| 0 <= i < self.tokens().len() implies 1
                            <= #[trigger] self.tokens()[i] < self.next_token() by {
                            assert(self.tokens().contains(self.tokens()[i]));
                            lemma_peers_contains(pre, token, self.tokens()[i]);
                            let j = choose|j: int| 0 <= j < pre.len() && pre[j]
                                == self.tokens()[i];
                            assert(1 <= pre[j] < old(self).next_token());
                        }
                    }
                    Action::Deregister(token)
                } else {
                    Action::NoOp
                }
            },
            ReadOutcome::Data(p) => {
                if self.is_registered(token) {
                    let targets = collect_peers(&self.clients, token);
                    Action::FanOut { targets, payload: p }
                } else {
                    Action::NoOp
                }
            },
            ReadOutcome::Failed => Action::NoOp,
        }
    }

    /// Dispatches one readiness event: the listening socket's identifier
    /// routes to accept handling, every other identifier to client
    /// handling. Events are handed in one at a time, in the order the
    /// readiness source returned them.
    pub fn dispatch(&mut self, event: Event) -> (act: Action)
        requires
            old(self).wf(),
            old(self).next_token() < u64::MAX,
            event matches Event::ClientReady { token, outcome } ==> (outcome
                matches ReadOutcome::Data(p) ==> p@.len() >= 1),
        ensures
            final(self).wf(),
            match event {
                Event::ListenerReady { accepted } => listener_step(
                    *old(self),
                    *final(self),
                    accepted,
                    act,
                ),
                Event::ClientReady { token, outcome } => client_step(
                    *old(self),
                    *final(self),
                    token,
                    outcome,
                    act,
                ),
            },
    {
        match event {
            Event::ListenerReady { accepted } => self.handle_listener_event(accepted),
            Event::ClientReady { token, outcome } => self.handle_client_event(token, outcome),
        }
    }
}

/// The transition taken on a readiness event for the listening socket.
/// When a pending connection was accepted it receives the counter's current
/// value as its identifier, which no registered connection holds, and the
/// counter moves on; a spurious wake-up that accepted nothing changes
/// nothing at all.
pub open spec fn listener_step(pre: Relay, post: Relay, accepted: bool, act: Action) -> bool {
    if accepted {
        &&& act == Action::Register(pre.next_token())
        &&& !pre.registered(pre.next_token())
        &&& post.tokens() == pre.tokens().push(pre.next_token())
        &&& post.next_token() == pre.next_token() + 1
    } else {
        &&& post == pre
        &&& act == Action::NoOp
    }
}

/// The transition taken on a readiness event for a client socket.
/// Orderly closure removes exactly the closing client from the registry;
/// received bytes leave the registry untouched and fan out verbatim to
/// every other registered client; a read error is reported by the caller
/// and changes nothing; an event for an unknown identifier is ignored.
pub open spec fn client_step(
    pre: Relay,
    post: Relay,
    token: u64,
    outcome: ReadOutcome,
    act: Action,
) -> bool {
    &&& post.next_token() == pre.next_token()
    &&& match outcome {
        ReadOutcome::Closed => if pre.registered(token) {
            &&& post.tokens() == peers(pre.tokens(), token)
            &&& !post.registered(token)
            &&& forall|t: u64| t != token ==> (post.registered(t) <==> pre.registered(t))
            &&& act == Action::Deregister(token)
        } else {
            &&& post == pre
            &&& act == Action::NoOp
        },
        ReadOutcome::Data(p) => {
            &&& post == pre
            &&& if pre.registered(token) {
                act matches Action::FanOut { targets, payload } && payload@ == p@ && targets@
                    == peers(pre.tokens(), token)
            } else {
                act == Action::NoOp
            }
        },
        ReadOutcome::Failed => {
            &&& post == pre
            &&& act == Action::NoOp
        },
    }
}

/// The fan-out targets for a payload sent by `sender`: the registered
/// identifiers in registry order with every occurrence of `sender` left out.
pub open spec fn peers(tokens: Seq<u64>, sender: u64) -> Seq<u64>
    decreases tokens.len(),
{
    if tokens.len() == 0 {
        Seq::empty()
    } else if tokens.last() == sender {
        peers(tokens.drop_last(), sender)
    } else {
        peers(tokens.drop_last(), sender).push(tokens.last())
    }
}

/// A sent payload reaches exactly the other registered clients: an identifier
/// is a fan-out target if and only if it is registered and is not the sender.
pub proof fn lemma_peers_contains(tokens: Seq<u64>, sender: u64, t: u64)
    ensures
        peers(tokens, sender).contains(t) <==> (tokens.contains(t) && t != sender),
    decreases tokens.len(),
{
    if tokens.len() == 0 {
    } else {
        let rest = tokens.drop_last();
        lemma_peers_contains(rest, sender, t);
        assert(tokens.contains(t) <==> (rest.contains(t) || tokens.last() == t)) by {
            if tokens.contains(t) {
                let i = choose|i: int| 0 <= i < tokens.len() && tokens[i] == t;
                if i < tokens.len() - 1 {
                    assert(rest[i] == t);
                }
            }
            if rest.contains(t) {
                let i = choose|i: int| 0 <= i < rest.len() && rest[i] == t;
                assert(tokens[i] == t);
            }
            if tokens.last() == t {
                assert(tokens[tokens.len() - 1] == t);
            }
        }
        if tokens.last() != sender {
            let sub = peers(rest, sender);
            assert(peers(tokens, sender) == sub.push(tokens.last()));
            assert(sub.push(tokens.last()).contains(t) <==> (sub.contains(t)
                || tokens.last() == t)) by {
                if sub.contains(t) {
                    let i = choose|i: int| 0 <= i < sub.len() && sub[i] == t;
                    assert(sub.push(tokens.last())[i] == t);
                }
                assert(sub.push(tokens.last())[sub.len() as int] == tokens.last());
            }
        }
    }
}

/// Each peer receives the payload once: with a duplicate-free registry the
/// fan-out targets are duplicate-free, and the sender is never among them.
pub proof fn lemma_peers_no_duplicates(tokens: Seq<u64>, sender: u64)
    requires
        tokens.no_duplicates(),
    ensures
        peers(tokens, sender).no_duplicates(),
        !peers(tokens, sender).contains(sender),
    decreases tokens.len(),
{
    lemma_peers_contains(tokens, sender, sender);
    if tokens.len() == 0 {
    } else {
        let rest = tokens.drop_last();
        lemma_peers_no_duplicates(rest, sender);
        if tokens.last() != sender {
            lemma_peers_contains(rest, sender, tokens.last());
            assert(!rest.contains(tokens.last())) by {
                if rest.contains(tokens.last()) {
                    let i = choose|i: int| 0 <= i < rest.len() && rest[i] == tokens.last();
                    assert(tokens[i] == tokens[tokens.len() - 1]);
                }
            }
            let sub = peers(rest, sender);
            assert(sub.push(tokens.last()).no_duplicates()) by {
                assert(!sub.contains(tokens.last()));
                assert(forall|i: int|
                    0 <= i < sub.len() ==> sub.push(tokens.last())[i] == #[trigger] sub[i]);
            }
        }
    }
}

/// Identifiers are never shared or reused: in a well-formed relay no two
/// registered connections hold the same identifier, every registered
/// identifier is a positive number below the counter, and the identifier
/// the next accepted connection will receive is held by nobody.
pub proof fn lemma_identifier_freshness(r: Relay)
    requires
        r.wf(),
    ensures
        r.tokens().no_duplicates(),
        !r.registered(r.next_token()),
        forall|t: u64| r.registered(t) ==> 1 <= t < r.next_token(),
        !r.registered(LISTENER_TOKEN),
{
    assert forall|t: u64| r.registered(t) implies 1 <= t < r.next_token() by {
        let i = choose|i: int| 0 <= i < r.tokens().len() && r.tokens()[i] == t;
        assert(1 <= r.tokens()[i] < r.next_token());
    }
}

/// A deregistered identifier is never a fan-out target again: once it is
/// absent from the registry, no sender's fan-out includes it.
pub proof fn lemma_removed_never_targeted(tokens: Seq<u64>, removed: u64, sender: u64)
    requires
        !tokens.contains(removed),
    ensures
        !peers(tokens, sender).contains(removed),
{
    lemma_peers_contains(tokens, sender, removed);
}

/// A lone client's send fans out to nobody: when only the sender is
/// registered, the fan-out target list is empty.
pub proof fn lemma_lone_client_no_fan_out(tokens: Seq<u64>, sender: u64)
    requires
        forall|t: u64| tokens.contains(t) ==> t == sender,
    ensures
        peers(tokens, sender).len() == 0,
{
    let out = peers(tokens, sender);
    if out.len() > 0 {
        assert(out.contains(out[0]));
        lemma_peers_contains(tokens, sender, out[0]);
    }
}

/// Builds the fan-out target list for `sender` from the registry contents.
fn collect_peers(clients: &Vec<u64>, sender: u64) -> (r: Vec<u64>)
    ensures
        r@ == peers(clients@, sender),
{
    let mut r: Vec<u64> = Vec::new();
    let mut i: usize = 0;
    while i < clients.len()
        invariant
            i <= clients.len(),
            r@ == peers(clients@.subrange(0, i as int), sender),
        decreases clients.len() - i,
    {
        let t = clients[i];
        proof {
            assert(clients@.subrange(0, i + 1).drop_last() =~= clients@.subrange(0, i as int));
            assert(clients@.subrange(0, i + 1).last() == clients@[i as int]);
        }
        if t != sender {
            r.push(t);
        }
        i = i + 1;
    }
    proof {
        assert(clients@.subrange(0, clients@.len() as int) =~= clients@);
    }
    r
}

/// The first `n` bytes of a read buffer: the payload a bounded read of `n`
/// bytes produced, to be fanned out unmodified.
pub fn payload_prefix(buffer: &Vec<u8>, n: usize) -> (p: Vec<u8>)
    requires
        n <= buffer.len(),
    ensures
        p@ == buffer@.subrange(0, n as int),
{
    let mut p: Vec<u8> = Vec::new();
    let mut i: usize = 0;
    while i < n
        invariant
            i <= n,
            n <= buffer.len(),
            p@ == buffer@.subrange(0, i as int),
        decreases n - i,
    {
        p.push(buffer[i]);
        i = i + 1;
        proof {
            assert(p@ =~= buffer@.subrange(0, i as int));
        }
    }
    p
}

} // verus!
