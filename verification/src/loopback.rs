//! Operations run against the reference kernel, without a socket.
//!
//! [`perform`] drives a [`Session`] as a program does that owns a socket:
//! it encodes the request, hands the datagram to the kernel, feeds the
//! datagrams that come back to the exchange, and lets the exchange expire
//! once nothing more arrives. What comes out is
//! [`perform_spec`], which says the same over typed messages, without
//! octets.

use vstd::prelude::*;
use vstd::string::StringExecFns;
use crate::codec::{
    encode_message,
    lemma_message_roundtrip,
    message_bytes,
    message_of,
    message_packet,
};
use crate::entry::{IpAddress, IpEntry, IpSetCreateOptions, NftSetCreateOptions};
use crate::error::{Error, ErrorView};
use crate::exchange::{
    absorb_spec,
    expire_spec,
    feed_spec,
    receive_spec,
    take_spec,
    Exchange,
    ExchangeView,
    Progress,
};
use crate::frame::{lemma_split_step, packet_bytes, split_spec, PacketView};
use crate::kernel::{
    datagrams,
    echo_of,
    react,
    serve,
    serve_one,
    transmit_spec,
    KernelView,
};
use crate::message::{MessageView, WireMessage};
use crate::meaning::meaning;
use crate::memory::{all_messages_wf, datagram_views, MemoryKernel};
use crate::refinement::theorem_perform;
use crate::operation::{Operation, Outcome, OutcomeView};
use crate::reply::outcome_view;
use crate::session::{
    next_sequence,
    resume_spec,
    start_spec,
    Plan,
    Session,
    SessionView,
    Turn,
    TurnView,
};

verus! {

/// The exchange after a typed message arrived.
pub open spec fn hear_spec(x: ExchangeView, m: MessageView) -> ExchangeView {
    if x.progress != Progress::Pending {
        x
    } else if m.sequence != x.sequence || m.port != x.port {
        x
    } else {
        take_spec(x, m.body)
    }
}

/// The exchange after some typed messages arrived one after the other.
pub open spec fn answer_spec(x: ExchangeView, replies: Seq<MessageView>) -> ExchangeView
    decreases replies.len(),
{
    if replies.len() == 0 {
        x
    } else {
        answer_spec(hear_spec(x, replies[0]), replies.drop_first())
    }
}

/// One exchange with the kernel: the kernel reacts to the request, the
/// exchange hears the answer, and expires if the answer left it open.
pub open spec fn converse_spec(k: KernelView, request: MessageView, x: ExchangeView) -> (
    KernelView,
    ExchangeView,
) {
    let reaction = react(k, request, echo_of(message_packet(request)));
    (reaction.0, expire_spec(answer_spec(x, reaction.1)))
}

/// How many more listings a session runs: one if it is a flush that has
/// not listed yet.
pub open spec fn listings_left(s: SessionView) -> nat {
    if s.plan is Listing {
        1
    } else {
        0
    }
}

/// How many more members a flush deletes.
pub open spec fn deletions_left(s: SessionView) -> nat {
    match s.plan {
        Plan::Deleting { queue, .. } => queue.len(),
        _ => 0,
    }
}

/// Whether a turn sends a request.
pub open spec fn sends(turn: TurnView) -> nat {
    if turn is Send {
        1
    } else {
        0
    }
}

/// What running a session against the kernel `k` comes to: the kernel's
/// state when the operation is over, and the result of the operation.
pub open spec fn run_spec(k: KernelView, s: SessionView, turn: TurnView) -> (
    KernelView,
    Result<OutcomeView, ErrorView>,
)
    decreases listings_left(s), deletions_left(s), sends(turn),
    via run_terminates
{
    match turn {
        TurnView::Finish(result) => (k, result),
        TurnView::Send { request, exchange } => {
            let met = converse_spec(k, request, exchange);
            let next = resume_spec(s, met.1);
            run_spec(met.0, next.0, next.1)
        },
    }
}

/// Each turn of a session brings it closer to its end: a flush lists
/// once, then every deletion leaves one member less to delete, and a turn
/// that finishes sends nothing more.
pub proof fn lemma_resume_advances(s: SessionView, x: ExchangeView)
    ensures
        ({
            let next = resume_spec(s, x);
            listings_left(next.0) < listings_left(s) || (listings_left(next.0) == listings_left(s)
                && (deletions_left(next.0) < deletions_left(s) || (deletions_left(next.0)
                == deletions_left(s) && next.1 is Finish)))
        }),
{
    match s.plan {
        Plan::Single { .. } => {},
        Plan::Listing { .. } => {},
        Plan::Deleting { queue, .. } => {},
    }
}

#[via_fn]
proof fn run_terminates(k: KernelView, s: SessionView, turn: TurnView) {
    match turn {
        TurnView::Finish(_) => {},
        TurnView::Send { request, exchange } => {
            let met = converse_spec(k, request, exchange);
            lemma_resume_advances(s, met.1);
        },
    }
}

/// What an operation comes to on the kernel `k`: the kernel's state
/// afterwards, and the result.
pub open spec fn perform_spec(
    k: KernelView,
    op: Operation<Seq<char>>,
    sequence: u32,
    port: u32,
) -> (KernelView, Result<OutcomeView, ErrorView>) {
    let begun = start_spec(op, sequence, port);
    run_spec(k, begun.0, begun.1)
}

/// The datagram of one message splits into that message.
pub proof fn lemma_split_message(m: MessageView)
    requires
        m.wf(),
    ensures
        split_spec(message_bytes(m)) == Some(seq![message_packet(m)]),
        message_of(message_packet(m)) == Some(m),
{
    let p = message_packet(m);
    lemma_message_roundtrip(m);
    lemma_split_step(p, Seq::empty());
    assert(packet_bytes(p) + Seq::<u8>::empty() =~= packet_bytes(p));
    assert(seq![p] + Seq::<PacketView>::empty() =~= seq![p]);
}

/// An exchange that receives the datagram of a message hears the message.
pub proof fn lemma_receive_message(x: ExchangeView, m: MessageView)
    requires
        m.wf(),
    ensures
        receive_spec(x, message_bytes(m)) == hear_spec(x, m),
{
    let p = message_packet(m);
    lemma_split_message(m);
    assert(seq![p].drop_first() =~= Seq::<PacketView>::empty());
    assert(feed_spec(x, seq![p]) == feed_spec(absorb_spec(x, p), seq![p].drop_first()));
    assert(feed_spec(absorb_spec(x, p), Seq::<PacketView>::empty()) == absorb_spec(x, p));
}

/// The kernel that takes in the datagram of a request reacts to the
/// request, and answers with the datagrams of its reaction.
pub proof fn lemma_transmit_message(k: KernelView, m: MessageView)
    requires
        m.wf(),
    ensures
        split_spec(message_bytes(m)) == Some(seq![message_packet(m)]),
        serve(k, seq![message_packet(m)]) == react(k, m, echo_of(message_packet(m))),
        transmit_spec(k, message_bytes(m)) == (
            react(k, m, echo_of(message_packet(m))).0,
            datagrams(react(k, m, echo_of(message_packet(m))).1),
        ),
{
    let p = message_packet(m);
    lemma_split_message(m);
    let first = serve_one(k, p);
    assert(seq![p].drop_first() =~= Seq::<PacketView>::empty());
    assert(serve(first.0, Seq::<PacketView>::empty()) == (first.0, Seq::<MessageView>::empty()));
    assert(first.1 + Seq::<MessageView>::empty() =~= first.1);
    assert(serve(k, seq![p]) == (first.0, first.1 + Seq::<MessageView>::empty()));
}

/// Runs one exchange against the kernel: sends the request, hears every
/// datagram of the answer, and lets the exchange expire if the answer left
/// it open.
pub fn converse(kernel: &mut MemoryKernel, request: &WireMessage, exchange: &mut Exchange)
    requires
        old(kernel)@.sound(),
        request@.wf(),
    ensures
        (final(kernel)@, final(exchange)@) == converse_spec(
            old(kernel)@,
            request@,
            old(exchange)@,
        ),
        final(kernel)@.sound(),
{
    let bytes = encode_message(request);
    proof {
        lemma_transmit_message(kernel@, request@);
    }
    let answers = kernel.transmit(bytes.as_slice());
    let ghost replies = react(old(kernel)@, request@, echo_of(message_packet(request@))).1;
    let n = answers.len();
    let mut i: usize = 0;
    proof {
        assert(replies.skip(0) =~= replies);
        assert(datagram_views(answers@).len() == answers@.len());
        assert(datagrams(replies).len() == replies.len());
    }
    while i < n
        invariant
            n == answers@.len(),
            n == replies.len(),
            i <= n,
            datagram_views(answers@) == datagrams(replies),
            all_messages_wf(replies),
            answer_spec(old(exchange)@, replies) == answer_spec(exchange@, replies.skip(i as int)),
        decreases n - i,
    {
        proof {
            let rest = replies.skip(i as int);
            assert(rest[0] == replies[i as int]);
            assert(rest.drop_first() =~= replies.skip(i as int + 1));
            assert(replies[i as int].wf());
            assert(datagram_views(answers@)[i as int] == answers@[i as int]@);
            assert(datagrams(replies)[i as int] == message_bytes(replies[i as int]));
            lemma_receive_message(exchange@, replies[i as int]);
        }
        exchange.receive(answers[i].as_slice());
        i += 1;
    }
    exchange.expire();
}

/// Runs a session that has begun against the kernel until it is over.
fn run(kernel: &mut MemoryKernel, session: Session, turn: Turn) -> (r: Result<Outcome, Error>)
    requires
        old(kernel)@.sound(),
        turn matches Turn::Send { request, .. } ==> request@.wf(),
    ensures
        (final(kernel)@, outcome_view(r)) == run_spec(old(kernel)@, session@, turn@),
        final(kernel)@.sound(),
{
    let mut current = session;
    let mut next = turn;
    loop
        invariant
            kernel@.sound(),
            next matches Turn::Send { request, .. } ==> request@.wf(),
            run_spec(old(kernel)@, session@, turn@) == run_spec(kernel@, current@, next@),
        decreases listings_left(current@), deletions_left(current@), sends(next@),
    {
        match next {
            Turn::Finish(result) => {
                return result;
            },
            Turn::Send { request, exchange } => {
                let mut exchange = exchange;
                converse(kernel, &request, &mut exchange);
                proof {
                    lemma_resume_advances(current@, exchange@);
                }
                let resumed = current.resume(exchange);
                current = resumed.0;
                next = resumed.1;
            },
        }
    }
}

/// Runs an operation against the kernel.
///
/// `sequence` is the sequence number of the first request and `port` the
/// port the requests are sent from; neither has any bearing on the result.
pub fn perform(kernel: &mut MemoryKernel, op: Operation<String>, sequence: u32, port: u32) -> (r:
    Result<Outcome, Error>)
    requires
        old(kernel)@.sound(),
    ensures
        (final(kernel)@, outcome_view(r)) == perform_spec(old(kernel)@, op@, sequence, port),
        final(kernel)@.sound(),
{
    let begun = Session::start(op, sequence, port);
    run(kernel, begun.0, begun.1)
}

/// A caller of the reference kernel: the kernel, the port the caller sends
/// from, and the sequence number of its next request.
#[derive(Debug)]
pub struct Client {
    pub kernel: MemoryKernel,
    pub sequence: u32,
    pub port: u32,
}

/// The result of an operation that hands nothing back.
pub open spec fn done_of(r: Result<OutcomeView, ErrorView>) -> Result<(), ErrorView> {
    match r {
        Ok(_) => Ok(()),
        Err(e) => Err(e),
    }
}

/// The result of a membership test.
pub open spec fn member_of(r: Result<OutcomeView, ErrorView>) -> Result<bool, ErrorView> {
    match r {
        Ok(OutcomeView::Member(found)) => Ok(found),
        Ok(_) => Err(ErrorView::Malformed),
        Err(e) => Err(e),
    }
}

/// The result of a listing.
pub open spec fn entries_of(r: Result<OutcomeView, ErrorView>) -> Result<
    Seq<IpAddress>,
    ErrorView,
> {
    match r {
        Ok(OutcomeView::Entries(entries)) => Ok(entries),
        Ok(_) => Err(ErrorView::Malformed),
        Err(e) => Err(e),
    }
}

/// The result of a table listing.
pub open spec fn tables_of(r: Result<OutcomeView, ErrorView>) -> Result<
    Seq<Seq<char>>,
    ErrorView,
> {
    match r {
        Ok(OutcomeView::Tables(names)) => Ok(names),
        Ok(_) => Err(ErrorView::Malformed),
        Err(e) => Err(e),
    }
}

/// A result without a value as a mathematical value.
pub open spec fn unit_view(r: Result<(), Error>) -> Result<(), ErrorView> {
    match r {
        Ok(_) => Ok(()),
        Err(e) => Err(e@),
    }
}

/// A result that is a truth value as a mathematical value.
pub open spec fn bool_view(r: Result<bool, Error>) -> Result<bool, ErrorView> {
    match r {
        Ok(b) => Ok(b),
        Err(e) => Err(e@),
    }
}

/// A result that is a list of addresses as a mathematical value.
pub open spec fn addrs_view(r: Result<Vec<IpAddress>, Error>) -> Result<Seq<IpAddress>, ErrorView> {
    match r {
        Ok(v) => Ok(v@),
        Err(e) => Err(e@),
    }
}

/// A result that is a list of names as a mathematical value.
pub open spec fn names_view(r: Result<Vec<String>, Error>) -> Result<Seq<Seq<char>>, ErrorView> {
    match r {
        Ok(v) => Ok(Seq::new(v@.len(), |i: int| v@[i]@)),
        Err(e) => Err(e@),
    }
}

impl Client {
    /// Whether the kernel of the caller is as requests leave it.
    pub open spec fn wf(self) -> bool {
        self.kernel@.sound()
    }

    /// What an operation comes to for this caller: the kernel afterwards,
    /// and the result.
    pub open spec fn outcome(self, op: Operation<Seq<char>>) -> (
        KernelView,
        Result<OutcomeView, ErrorView>,
    ) {
        meaning(self.kernel@, op)
    }

    /// Whether `after` is this caller after an operation: same port, next
    /// sequence number, and a kernel as operations leave it.
    pub open spec fn follows(self, after: Client) -> bool {
        &&& after.wf()
        &&& after.sequence == next_sequence(self.sequence)
        &&& after.port == self.port
    }

    /// A caller of a kernel that holds nothing yet. It sends from port 0 and
    /// gives its first request the sequence number 1.
    pub fn new() -> (c: Client)
        ensures
            c.kernel@.ipsets.len() == 0,
            c.kernel@.tables.len() == 0,
            c.sequence == 1,
            c.port == 0,
            c.wf(),
    {
        Client { kernel: MemoryKernel::new(), sequence: 1, port: 0 }
    }

    /// Runs an operation, with a sequence number that the caller has not
    /// used for the operation before it.
    pub fn execute(&mut self, op: Operation<String>) -> (r: Result<Outcome, Error>)
        requires
            old(self).wf(),
        ensures
            (final(self).kernel@, outcome_view(r)) == meaning(old(self).kernel@, op@),
            (final(self).kernel@, outcome_view(r)) == perform_spec(
                old(self).kernel@,
                op@,
                old(self).sequence,
                old(self).port,
            ),
            old(self).follows(*final(self)),
    {
        proof {
            theorem_perform(self.kernel@, op@, self.sequence, self.port);
        }
        let sequence = self.sequence;
        self.sequence = if sequence == u32::MAX {
            0
        } else {
            sequence + 1
        };
        perform(&mut self.kernel, op, sequence, self.port)
    }

    /// Runs an operation that hands nothing back.
    fn done(&mut self, op: Operation<String>) -> (r: Result<(), Error>)
        requires
            old(self).wf(),
        ensures
            (final(self).kernel@, unit_view(r)) == ({
                let run = old(self).outcome(op@);
                (run.0, done_of(run.1))
            }),
            old(self).follows(*final(self)),
    {
        match self.execute(op) {
            Ok(_) => Ok(()),
            Err(e) => Err(e),
        }
    }

    /// Runs a membership test.
    fn member(&mut self, op: Operation<String>) -> (r: Result<bool, Error>)
        requires
            old(self).wf(),
        ensures
            (final(self).kernel@, bool_view(r)) == ({
                let run = old(self).outcome(op@);
                (run.0, member_of(run.1))
            }),
            old(self).follows(*final(self)),
    {
        match self.execute(op) {
            Ok(Outcome::Member(found)) => Ok(found),
            Ok(_) => Err(Error::Malformed),
            Err(e) => Err(e),
        }
    }

    /// Runs a listing.
    fn entries(&mut self, op: Operation<String>) -> (r: Result<Vec<IpAddress>, Error>)
        requires
            old(self).wf(),
        ensures
            (final(self).kernel@, addrs_view(r)) == ({
                let run = old(self).outcome(op@);
                (run.0, entries_of(run.1))
            }),
            old(self).follows(*final(self)),
    {
        match self.execute(op) {
            Ok(Outcome::Entries(entries)) => Ok(entries),
            Ok(_) => Err(Error::Malformed),
            Err(e) => Err(e),
        }
    }

    /// Runs a table listing.
    fn tables(&mut self, op: Operation<String>) -> (r: Result<Vec<String>, Error>)
        requires
            old(self).wf(),
        ensures
            (final(self).kernel@, names_view(r)) == ({
                let run = old(self).outcome(op@);
                (run.0, tables_of(run.1))
            }),
            old(self).follows(*final(self)),
    {
        match self.execute(op) {
            Ok(Outcome::Tables(names)) => Ok(names),
            Ok(_) => Err(Error::Malformed),
            Err(e) => Err(e),
        }
    }

    /// Creates an ipset set. Fails with [`Error::AlreadyExists`] if the kernel
    /// holds a set of that name.
    pub fn ipset_create(
        &mut self,
        name: &str,
        options: &IpSetCreateOptions,
    ) -> (r: Result<(), Error>)
        requires
            old(self).wf(),
        ensures
            (final(self).kernel@, unit_view(r)) == ({
                let run = old(self).outcome(
                    Operation::IpsetCreate { name: name@, options: *options },
                );
                (run.0, done_of(run.1))
            }),
            old(self).follows(*final(self)),
    {
        self.done(
            Operation::IpsetCreate {
                name: String::from_str(name),
                options: *options,
            },
        )
    }

    /// Destroys an ipset set. Fails with [`Error::NotFound`] if there is no
    /// such set.
    pub fn ipset_destroy(&mut self, name: &str) -> (r: Result<(), Error>)
        requires
            old(self).wf(),
        ensures
            (final(self).kernel@, unit_view(r)) == ({
                let run = old(self).outcome(Operation::IpsetDestroy { name: name@ });
                (run.0, done_of(run.1))
            }),
            old(self).follows(*final(self)),
    {
        self.done(Operation::IpsetDestroy { name: String::from_str(name) })
    }

    /// Removes every member of an ipset set and keeps the set.
    pub fn ipset_flush(&mut self, name: &str) -> (r: Result<(), Error>)
        requires
            old(self).wf(),
        ensures
            (final(self).kernel@, unit_view(r)) == ({
                let run = old(self).outcome(Operation::IpsetFlush { name: name@ });
                (run.0, done_of(run.1))
            }),
            old(self).follows(*final(self)),
    {
        self.done(Operation::IpsetFlush { name: String::from_str(name) })
    }

    /// Gives the ipset set `from` the name `to`. Fails with
    /// [`Error::AlreadyExists`] if that name is taken.
    pub fn ipset_rename(&mut self, from: &str, to: &str) -> (r: Result<(), Error>)
        requires
            old(self).wf(),
        ensures
            (final(self).kernel@, unit_view(r)) == ({
                let run = old(self).outcome(Operation::IpsetRename { from: from@, to: to@ });
                (run.0, done_of(run.1))
            }),
            old(self).follows(*final(self)),
    {
        self.done(
            Operation::IpsetRename {
                from: String::from_str(from),
                to: String::from_str(to),
            },
        )
    }

    /// Exchanges what the names of two ipset sets of one type and family stand
    /// for.
    pub fn ipset_swap(&mut self, from: &str, to: &str) -> (r: Result<(), Error>)
        requires
            old(self).wf(),
        ensures
            (final(self).kernel@, unit_view(r)) == ({
                let run = old(self).outcome(Operation::IpsetSwap { from: from@, to: to@ });
                (run.0, done_of(run.1))
            }),
            old(self).follows(*final(self)),
    {
        self.done(
            Operation::IpsetSwap {
                from: String::from_str(from),
                to: String::from_str(to),
            },
        )
    }

    /// Adds a member to an ipset set. Fails with [`Error::AlreadyExists`] if it
    /// is a member already, and with [`Error::FamilyMismatch`] if its address
    /// is not of the family of the set.
    pub fn ipset_add(&mut self, name: &str, entry: IpEntry) -> (r: Result<(), Error>)
        requires
            old(self).wf(),
        ensures
            (final(self).kernel@, unit_view(r)) == ({
                let run = old(self).outcome(Operation::IpsetAdd { name: name@, entry });
                (run.0, done_of(run.1))
            }),
            old(self).follows(*final(self)),
    {
        self.done(Operation::IpsetAdd { name: String::from_str(name), entry })
    }

    /// Removes a member from an ipset set. Fails with [`Error::NotFound`] if it
    /// is no member.
    pub fn ipset_del(&mut self, name: &str, entry: IpEntry) -> (r: Result<(), Error>)
        requires
            old(self).wf(),
        ensures
            (final(self).kernel@, unit_view(r)) == ({
                let run = old(self).outcome(Operation::IpsetDel { name: name@, entry });
                (run.0, done_of(run.1))
            }),
            old(self).follows(*final(self)),
    {
        self.done(Operation::IpsetDel { name: String::from_str(name), entry })
    }

    /// Says whether an address is a member of an ipset set.
    pub fn ipset_test(&mut self, name: &str, entry: IpEntry) -> (r: Result<bool, Error>)
        requires
            old(self).wf(),
        ensures
            (final(self).kernel@, bool_view(r)) == ({
                let run = old(self).outcome(Operation::IpsetTest { name: name@, entry });
                (run.0, member_of(run.1))
            }),
            old(self).follows(*final(self)),
    {
        self.member(Operation::IpsetTest { name: String::from_str(name), entry })
    }

    /// Lists the members of an ipset set, in the order the kernel sends them.
    pub fn ipset_list(&mut self, name: &str) -> (r: Result<Vec<IpAddress>, Error>)
        requires
            old(self).wf(),
        ensures
            (final(self).kernel@, addrs_view(r)) == ({
                let run = old(self).outcome(Operation::IpsetList { name: name@ });
                (run.0, entries_of(run.1))
            }),
            old(self).follows(*final(self)),
    {
        self.entries(Operation::IpsetList { name: String::from_str(name) })
    }

    /// Creates an nftables table. Fails with [`Error::AlreadyExists`] if the
    /// family has a table of that name.
    pub fn nftset_create_table(&mut self, family: &str, table: &str) -> (r: Result<(), Error>)
        requires
            old(self).wf(),
        ensures
            (final(self).kernel@, unit_view(r)) == ({
                let run = old(self).outcome(
                    Operation::NftCreateTable { family: family@, table: table@ },
                );
                (run.0, done_of(run.1))
            }),
            old(self).follows(*final(self)),
    {
        self.done(
            Operation::NftCreateTable {
                family: String::from_str(family),
                table: String::from_str(table),
            },
        )
    }

    /// Deletes an nftables table. The kernel refuses while the table holds
    /// sets.
    pub fn nftset_delete_table(&mut self, family: &str, table: &str) -> (r: Result<(), Error>)
        requires
            old(self).wf(),
        ensures
            (final(self).kernel@, unit_view(r)) == ({
                let run = old(self).outcome(
                    Operation::NftDeleteTable { family: family@, table: table@ },
                );
                (run.0, done_of(run.1))
            }),
            old(self).follows(*final(self)),
    {
        self.done(
            Operation::NftDeleteTable {
                family: String::from_str(family),
                table: String::from_str(table),
            },
        )
    }

    /// Lists the names of the tables of a family.
    pub fn nftset_list_tables(&mut self, family: &str) -> (r: Result<Vec<String>, Error>)
        requires
            old(self).wf(),
        ensures
            (final(self).kernel@, names_view(r)) == ({
                let run = old(self).outcome(Operation::NftListTables { family: family@ });
                (run.0, tables_of(run.1))
            }),
            old(self).follows(*final(self)),
    {
        self.tables(Operation::NftListTables { family: String::from_str(family) })
    }

    /// Creates a set in an nftables table. Fails with [`Error::AlreadyExists`]
    /// if the table holds a set of that name, whatever kind of set is asked
    /// for, and with [`Error::NotFound`] if there is no such table. A table of
    /// any family takes sets of IPv4 and of IPv6 addresses.
    pub fn nftset_create_set(
        &mut self,
        family: &str,
        table: &str,
        name: &str,
        options: &NftSetCreateOptions,
    ) -> (r: Result<(), Error>)
        requires
            old(self).wf(),
        ensures
            (final(self).kernel@, unit_view(r)) == ({
                let run = old(self).outcome(
                    Operation::NftCreateSet {
                        family: family@,
                        table: table@,
                        name: name@,
                        options: *options,
                    },
                );
                (run.0, done_of(run.1))
            }),
            old(self).follows(*final(self)),
    {
        self.done(
            Operation::NftCreateSet {
                family: String::from_str(family),
                table: String::from_str(table),
                name: String::from_str(name),
                options: *options,
            },
        )
    }

    /// Deletes a set of an nftables table.
    pub fn nftset_delete_set(
        &mut self,
        family: &str,
        table: &str,
        name: &str,
    ) -> (r: Result<(), Error>)
        requires
            old(self).wf(),
        ensures
            (final(self).kernel@, unit_view(r)) == ({
                let run = old(self).outcome(
                    Operation::NftDeleteSet {
                        family: family@,
                        table: table@,
                        name: name@,
                    },
                );
                (run.0, done_of(run.1))
            }),
            old(self).follows(*final(self)),
    {
        self.done(
            Operation::NftDeleteSet {
                family: String::from_str(family),
                table: String::from_str(table),
                name: String::from_str(name),
            },
        )
    }

    /// Removes every member of an nftables set: lists the set and deletes each
    /// member that the listing held.
    pub fn nftset_flush(&mut self, family: &str, table: &str, name: &str) -> (r: Result<(), Error>)
        requires
            old(self).wf(),
        ensures
            (final(self).kernel@, unit_view(r)) == ({
                let run = old(self).outcome(
                    Operation::NftFlush {
                        family: family@,
                        table: table@,
                        name: name@,
                    },
                );
                (run.0, done_of(run.1))
            }),
            old(self).follows(*final(self)),
    {
        self.done(
            Operation::NftFlush {
                family: String::from_str(family),
                table: String::from_str(table),
                name: String::from_str(name),
            },
        )
    }

    /// Renaming an nftables set is not supported: always fails with
    /// [`Error::Unsupported`].
    pub fn nftset_rename(
        &mut self,
        family: &str,
        table: &str,
        from: &str,
        to: &str,
    ) -> (r: Result<(), Error>)
        requires
            old(self).wf(),
        ensures
            (final(self).kernel@, unit_view(r)) == ({
                let run = old(self).outcome(
                    Operation::NftRename {
                        family: family@,
                        table: table@,
                        from: from@,
                        to: to@,
                    },
                );
                (run.0, done_of(run.1))
            }),
            old(self).follows(*final(self)),
    {
        self.done(
            Operation::NftRename {
                family: String::from_str(family),
                table: String::from_str(table),
                from: String::from_str(from),
                to: String::from_str(to),
            },
        )
    }

    /// Swapping two nftables sets is not supported: always fails with
    /// [`Error::Unsupported`].
    pub fn nftset_swap(
        &mut self,
        family: &str,
        table: &str,
        from: &str,
        to: &str,
    ) -> (r: Result<(), Error>)
        requires
            old(self).wf(),
        ensures
            (final(self).kernel@, unit_view(r)) == ({
                let run = old(self).outcome(
                    Operation::NftSwap {
                        family: family@,
                        table: table@,
                        from: from@,
                        to: to@,
                    },
                );
                (run.0, done_of(run.1))
            }),
            old(self).follows(*final(self)),
    {
        self.done(
            Operation::NftSwap {
                family: String::from_str(family),
                table: String::from_str(table),
                from: String::from_str(from),
                to: String::from_str(to),
            },
        )
    }

    /// Adds a member to an nftables set; one that is a member already stays as
    /// it is. Fails with [`Error::FamilyMismatch`] if its address is not of the
    /// width of the set.
    pub fn nftset_add(
        &mut self,
        family: &str,
        table: &str,
        name: &str,
        entry: IpEntry,
    ) -> (r: Result<(), Error>)
        requires
            old(self).wf(),
        ensures
            (final(self).kernel@, unit_view(r)) == ({
                let run = old(self).outcome(
                    Operation::NftAdd {
                        family: family@,
                        table: table@,
                        name: name@,
                        entry,
                    },
                );
                (run.0, done_of(run.1))
            }),
            old(self).follows(*final(self)),
    {
        self.done(
            Operation::NftAdd {
                family: String::from_str(family),
                table: String::from_str(table),
                name: String::from_str(name),
                entry,
            },
        )
    }

    /// Removes a member from an nftables set. Fails with [`Error::NotFound`] if
    /// it is no member.
    pub fn nftset_del(
        &mut self,
        family: &str,
        table: &str,
        name: &str,
        entry: IpEntry,
    ) -> (r: Result<(), Error>)
        requires
            old(self).wf(),
        ensures
            (final(self).kernel@, unit_view(r)) == ({
                let run = old(self).outcome(
                    Operation::NftDel {
                        family: family@,
                        table: table@,
                        name: name@,
                        entry,
                    },
                );
                (run.0, done_of(run.1))
            }),
            old(self).follows(*final(self)),
    {
        self.done(
            Operation::NftDel {
                family: String::from_str(family),
                table: String::from_str(table),
                name: String::from_str(name),
                entry,
            },
        )
    }

    /// Says whether an address is a member of an nftables set.
    pub fn nftset_test(
        &mut self,
        family: &str,
        table: &str,
        name: &str,
        entry: IpEntry,
    ) -> (r: Result<bool, Error>)
        requires
            old(self).wf(),
        ensures
            (final(self).kernel@, bool_view(r)) == ({
                let run = old(self).outcome(
                    Operation::NftTest {
                        family: family@,
                        table: table@,
                        name: name@,
                        entry,
                    },
                );
                (run.0, member_of(run.1))
            }),
            old(self).follows(*final(self)),
    {
        self.member(
            Operation::NftTest {
                family: String::from_str(family),
                table: String::from_str(table),
                name: String::from_str(name),
                entry,
            },
        )
    }

    /// Lists the members of an nftables set, in the order the kernel sends
    /// them.
    pub fn nftset_list(
        &mut self,
        family: &str,
        table: &str,
        name: &str,
    ) -> (r: Result<Vec<IpAddress>, Error>)
        requires
            old(self).wf(),
        ensures
            (final(self).kernel@, addrs_view(r)) == ({
                let run = old(self).outcome(
                    Operation::NftList {
                        family: family@,
                        table: table@,
                        name: name@,
                    },
                );
                (run.0, entries_of(run.1))
            }),
            old(self).follows(*final(self)),
    {
        self.entries(
            Operation::NftList {
                family: String::from_str(family),
                table: String::from_str(table),
                name: String::from_str(name),
            },
        )
    }
}

} // verus!
