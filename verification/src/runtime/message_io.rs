//! Message ports of a block: named mailboxes for incoming payloads and an
//! outbox for the payloads its kernel posts.

use crate::runtime::pmt::Pmt;
use vstd::prelude::*;

verus! {

/// Index of the first of `names` equal to `name`.
pub open spec fn name_index(names: Seq<String>, name: Seq<char>) -> Option<int> {
    if exists|i: int| 0 <= i < names.len() && (#[trigger] names[i])@ == name {
        Some(
            choose|i: int|
                0 <= i < names.len() && (#[trigger] names[i])@ == name && forall|j: int|
                    0 <= j < i ==> (#[trigger] names[j])@ != name,
        )
    } else {
        None
    }
}

/// `name_index` is the index that holds the name and is preceded by no
/// equal name.
pub proof fn lemma_name_index(names: Seq<String>, name: Seq<char>, i: int)
    requires
        0 <= i < names.len(),
        names[i]@ == name,
        forall|j: int| 0 <= j < i ==> (#[trigger] names[j])@ != name,
    ensures
        name_index(names, name) == Some(i),
{
    let c = choose|c: int|
        0 <= c < names.len() && (#[trigger] names[c])@ == name && forall|j: int|
            0 <= j < c ==> (#[trigger] names[j])@ != name;
    assert(names[i]@ == name);
    if c < i {
        assert(names[c]@ != name);
    }
    if i < c {
        assert(names[i]@ != name);
    }
}

/// Finds the first of `names` equal to `name`.
pub fn find_name(names: &Vec<String>, name: &str) -> (r: Option<usize>)
    ensures
        r.is_some() == name_index(names@, name@).is_some(),
        r matches Some(i) ==> name_index(names@, name@) == Some(i as int),
        match r {
            Some(i) => i < names@.len() && names@[i as int]@ == name@ && forall|j: int|
                0 <= j < i ==> (#[trigger] names@[j])@ != name@,
            None => forall|j: int| 0 <= j < names@.len() ==> (#[trigger] names@[j])@ != name@,
        },
{
    let key = name.to_owned();
    let mut i: usize = 0;
    while i < names.len()
        invariant
            i <= names@.len(),
            key@ == name@,
            forall|j: int| 0 <= j < i ==> (#[trigger] names@[j])@ != name@,
        decreases names@.len() - i,
    {
        if names[i] == key {
            proof {
                lemma_name_index(names@, name@, i as int);
            }
            return Some(i);
        }
        i += 1;
    }
    None
}

/// Builder of the message ports of a block.
pub struct MessageIoBuilder {
    inputs: Vec<String>,
    outputs: Vec<String>,
}

impl MessageIoBuilder {
    /// Names of the inputs added so far.
    pub closed spec fn input_names(&self) -> Seq<String> {
        self.inputs@
    }

    /// Names of the outputs added so far.
    pub closed spec fn output_names(&self) -> Seq<String> {
        self.outputs@
    }

    /// A builder without ports.
    pub fn new() -> (b: MessageIoBuilder)
        ensures
            b.input_names().len() == 0,
            b.output_names().len() == 0,
    {
        MessageIoBuilder { inputs: Vec::new(), outputs: Vec::new() }
    }

    /// Adds a mailbox called `name`.
    pub fn add_input(self, name: &str) -> (b: MessageIoBuilder)
        ensures
            b.output_names() == self.output_names(),
            b.input_names().len() == self.input_names().len() + 1,
            b.input_names().drop_last() == self.input_names(),
            b.input_names().last()@ == name@,
    {
        let mut b = self;
        b.inputs.push(name.to_owned());
        assert(b.inputs@.drop_last() =~= self.inputs@);
        b
    }

    /// Adds a message output called `name`.
    pub fn add_output(self, name: &str) -> (b: MessageIoBuilder)
        ensures
            b.input_names() == self.input_names(),
            b.output_names().len() == self.output_names().len() + 1,
            b.output_names().drop_last() == self.output_names(),
            b.output_names().last()@ == name@,
    {
        let mut b = self;
        b.outputs.push(name.to_owned());
        assert(b.outputs@.drop_last() =~= self.outputs@);
        b
    }

    /// The ports, with empty mailboxes and empty outboxes.
    pub fn build(self) -> (mio: MessageIo)
        ensures
            mio.wf(),
            mio.input_names() == self.input_names(),
            mio.output_names() == self.output_names(),
            forall|i: int| 0 <= i < mio.input_names().len() ==> (#[trigger] mio.mailbox(i)).len() == 0,
            forall|i: int| 0 <= i < mio.output_names().len() ==> (#[trigger] mio.outbox(i)).len() == 0,
    {
        let mailboxes = empty_queues(self.inputs.len());
        let outboxes = empty_queues(self.outputs.len());
        MessageIo { inputs: self.inputs, mailboxes, outputs: self.outputs, outboxes }
    }
}

/// `n` empty queues.
fn empty_queues(n: usize) -> (queues: Vec<Vec<Pmt>>)
    ensures
        queues@.len() == n,
        forall|j: int| 0 <= j < n ==> (#[trigger] queues@[j])@.len() == 0,
{
    let mut queues: Vec<Vec<Pmt>> = Vec::new();
    let mut i: usize = 0;
    while i < n
        invariant
            i <= n,
            queues@.len() == i,
            forall|j: int| 0 <= j < i ==> (#[trigger] queues@[j])@.len() == 0,
        decreases n - i,
    {
        queues.push(Vec::new());
        i += 1;
    }
    queues
}

/// The message ports of a block.
pub struct MessageIo {
    inputs: Vec<String>,
    mailboxes: Vec<Vec<Pmt>>,
    outputs: Vec<String>,
    outboxes: Vec<Vec<Pmt>>,
}

impl MessageIo {
    /// Names of the mailboxes.
    pub closed spec fn input_names(&self) -> Seq<String> {
        self.inputs@
    }

    /// Names of the message outputs.
    pub closed spec fn output_names(&self) -> Seq<String> {
        self.outputs@
    }

    /// The payloads queued in mailbox `port`, oldest first.
    pub closed spec fn mailbox(&self, port: int) -> Seq<Pmt> {
        self.mailboxes@[port]@
    }

    /// The payloads posted on output `port` and not yet routed, oldest first.
    pub closed spec fn outbox(&self, port: int) -> Seq<Pmt> {
        self.outboxes@[port]@
    }

    /// There is one queue per mailbox and one per output.
    pub closed spec fn wf(&self) -> bool {
        &&& self.mailboxes@.len() == self.inputs@.len()
        &&& self.outboxes@.len() == self.outputs@.len()
    }

    /// The port names are those of `before`.
    pub open spec fn same_ports(&self, before: &MessageIo) -> bool {
        self.input_names() == before.input_names() && self.output_names() == before.output_names()
    }

    /// Every mailbox but `port` holds what it held in `before`.
    pub open spec fn same_mailboxes_but(&self, before: &MessageIo, port: int) -> bool {
        forall|i: int|
            0 <= i < self.input_names().len() && i != port ==> #[trigger] self.mailbox(i)
                == before.mailbox(i)
    }

    /// Every outbox but that of `port` holds what it held in `before`.
    pub open spec fn same_outboxes_but(&self, before: &MessageIo, port: int) -> bool {
        forall|i: int|
            0 <= i < self.output_names().len() && i != port ==> #[trigger] self.outbox(i)
                == before.outbox(i)
    }

    /// Number of mailboxes.
    pub fn inputs(&self) -> (n: usize)
        ensures
            n == self.input_names().len(),
    {
        self.inputs.len()
    }

    /// Number of message outputs.
    pub fn outputs(&self) -> (n: usize)
        ensures
            n == self.output_names().len(),
    {
        self.outputs.len()
    }

    /// Name of mailbox `port`.
    pub fn input_name(&self, port: usize) -> (n: &String)
        requires
            port < self.input_names().len(),
        ensures
            *n == self.input_names()[port as int],
    {
        &self.inputs[port]
    }

    /// Name of message output `port`.
    pub fn output_name(&self, port: usize) -> (n: &String)
        requires
            port < self.output_names().len(),
        ensures
            *n == self.output_names()[port as int],
    {
        &self.outputs[port]
    }

    /// Index of the first mailbox called `name`.
    pub fn input_name_to_id(&self, name: &str) -> (r: Option<usize>)
        ensures
            r.is_some() == name_index(self.input_names(), name@).is_some(),
            r matches Some(i) ==> name_index(self.input_names(), name@) == Some(i as int),
            match r {
                Some(i) => i < self.input_names().len() && self.input_names()[i as int]@ == name@
                    && forall|j: int| 0 <= j < i ==> (#[trigger] self.input_names()[j])@ != name@,
                None => forall|j: int|
                    0 <= j < self.input_names().len() ==> (#[trigger] self.input_names()[j])@
                        != name@,
            },
    {
        find_name(&self.inputs, name)
    }

    /// Index of the first message output called `name`.
    pub fn output_name_to_id(&self, name: &str) -> (r: Option<usize>)
        ensures
            r.is_some() == name_index(self.output_names(), name@).is_some(),
            r matches Some(i) ==> name_index(self.output_names(), name@) == Some(i as int),
            match r {
                Some(i) => i < self.output_names().len() && self.output_names()[i as int]@ == name@
                    && forall|j: int| 0 <= j < i ==> (#[trigger] self.output_names()[j])@ != name@,
                None => forall|j: int|
                    0 <= j < self.output_names().len() ==> (#[trigger] self.output_names()[j])@
                        != name@,
            },
    {
        find_name(&self.outputs, name)
    }

    /// Posts `message` on output `port`. It stays in the outbox of the port
    /// until the scheduler routes it.
    pub fn post(&mut self, port: usize, message: Pmt)
        requires
            old(self).wf(),
            port < old(self).output_names().len(),
        ensures
            final(self).wf(),
            final(self).same_ports(old(self)),
            final(self).same_mailboxes_but(old(self), -1),
            final(self).same_outboxes_but(old(self), port as int),
            final(self).outbox(port as int) == old(self).outbox(port as int).push(message),
    {
        self.outboxes[port].push(message);
    }

    /// Number of payloads queued in mailbox `port`.
    pub fn pending(&self, port: usize) -> (n: usize)
        requires
            self.wf(),
            port < self.input_names().len(),
        ensures
            n == self.mailbox(port as int).len(),
    {
        self.mailboxes[port].len()
    }

    /// Number of payloads posted on output `port` and not yet routed.
    pub fn posted(&self, port: usize) -> (n: usize)
        requires
            self.wf(),
            port < self.output_names().len(),
        ensures
            n == self.outbox(port as int).len(),
    {
        self.outboxes[port].len()
    }

    /// Takes the oldest payload out of mailbox `port`.
    pub fn receive(&mut self, port: usize) -> (r: Option<Pmt>)
        requires
            old(self).wf(),
            port < old(self).input_names().len(),
        ensures
            final(self).wf(),
            final(self).same_ports(old(self)),
            final(self).same_mailboxes_but(old(self), port as int),
            final(self).same_outboxes_but(old(self), -1),
            old(self).mailbox(port as int).len() == 0 ==> r.is_none() && final(self).mailbox(
                port as int,
            ) == old(self).mailbox(port as int),
            old(self).mailbox(port as int).len() > 0 ==> r == Some(old(self).mailbox(port as int)[0])
                && final(self).mailbox(port as int) == old(self).mailbox(port as int).remove(0),
    {
        if self.mailboxes[port].len() == 0 {
            return None;
        }
        let m = self.mailboxes[port].remove(0);
        Some(m)
    }

    /// Queues `message` in mailbox `port`, behind what waits there.
    pub fn deliver(&mut self, port: usize, message: Pmt)
        requires
            old(self).wf(),
            port < old(self).input_names().len(),
        ensures
            final(self).wf(),
            final(self).same_ports(old(self)),
            final(self).same_mailboxes_but(old(self), port as int),
            final(self).same_outboxes_but(old(self), -1),
            final(self).mailbox(port as int) == old(self).mailbox(port as int).push(message),
    {
        self.mailboxes[port].push(message);
    }

    /// Queues `messages` in mailbox `port`, in their order, behind what
    /// waits there.
    pub fn deliver_all(&mut self, port: usize, messages: Vec<Pmt>)
        requires
            old(self).wf(),
            port < old(self).input_names().len(),
        ensures
            final(self).wf(),
            final(self).same_ports(old(self)),
            final(self).same_mailboxes_but(old(self), port as int),
            final(self).same_outboxes_but(old(self), -1),
            final(self).mailbox(port as int) == old(self).mailbox(port as int) + messages@,
    {
        let mut messages = messages;
        self.mailboxes[port].append(&mut messages);
    }

    /// Takes every payload posted on output `port`, oldest first.
    pub fn take_posted(&mut self, port: usize) -> (posted: Vec<Pmt>)
        requires
            old(self).wf(),
            port < old(self).output_names().len(),
        ensures
            final(self).wf(),
            final(self).same_ports(old(self)),
            final(self).same_mailboxes_but(old(self), -1),
            final(self).same_outboxes_but(old(self), port as int),
            final(self).outbox(port as int).len() == 0,
            posted@ == old(self).outbox(port as int),
    {
        let mut posted: Vec<Pmt> = Vec::new();
        std::mem::swap(&mut posted, &mut self.outboxes[port]);
        posted
    }
}

} // verus!
