//! The rendezvous registry: one mailbox of pending tunnel streams per public port.
//!
//! Each mailbox is an unbounded multi-producer, multi-consumer channel. Every mailbox the
//! registry creates gets a number it never hands out again, so a mailbox made for one
//! publish is never mistaken for one made for another.
use vstd::prelude::*;
use std::collections::HashMap;

verus! {

broadcast use vstd::std_specs::hash::group_hash_axioms;

#[verifier::external_type_specification]
#[verifier::external_body]
#[verifier::reject_recursive_types(T)]
pub struct ExSender<T>(async_channel::Sender<T>);

#[verifier::external_type_specification]
#[verifier::external_body]
#[verifier::reject_recursive_types(T)]
pub struct ExReceiver<T>(async_channel::Receiver<T>);

/// Relies on `async_channel::unbounded`: a new channel with no capacity bound.
pub assume_specification<T>[ async_channel::unbounded::<T> ]() -> (
    async_channel::Sender<T>,
    async_channel::Receiver<T>,
);

/// Relies on `Sender::clone`: the clone holds the same channel handle as the original.
pub assume_specification<T>[ <async_channel::Sender<T> as Clone>::clone ](
    s: &async_channel::Sender<T>,
) -> (r: async_channel::Sender<T>)
    ensures
        r == *s,
;

/// Relies on `Sender::close`: closes the channel, so that receivers waiting on an empty
/// queue see it closed.
pub assume_specification<T>[ async_channel::Sender::<T>::close ](s: &async_channel::Sender<T>) -> bool;

/// Relies on `Sender::try_send` and `TrySendError::into_inner`: on failure the message
/// comes back unchanged.
#[verifier::external_body]
fn try_deliver<T>(tx: &async_channel::Sender<T>, item: T) -> (r: Result<(), T>)
    ensures
        r matches Err(back) ==> back == item,
{
    match tx.try_send(item) {
        Ok(()) => Ok(()),
        Err(e) => Err(e.into_inner()),
    }
}

/// One port's mailbox: both ends of its channel, and its number.
#[verifier::reject_recursive_types(T)]
struct Mailbox<T> {
    id: u64,
    tx: async_channel::Sender<T>,
    rx: async_channel::Receiver<T>,
}

/// The registry ran out of mailbox numbers.
#[derive(Clone, Copy, Debug, PartialEq, Eq, Structural)]
pub enum RegistryError {
    Exhausted,
}

/// Why a stream could not be put in a mailbox; the stream comes back.
#[derive(Debug)]
pub enum SendError<T> {
    /// No mailbox is registered for the port.
    NoSuchPort(T),
    /// The mailbox's channel is closed.
    Closed(T),
}

/// Map from public port to mailbox.
#[verifier::reject_recursive_types(T)]
pub struct ChanneledChannel<T> {
    channels: HashMap<u16, Mailbox<T>>,
    next_id: u64,
}

impl<T> View for ChanneledChannel<T> {
    /// Each registered port with the number of its mailbox.
    type V = Map<u16, u64>;

    closed spec fn view(&self) -> Map<u16, u64> {
        self.channels@.map_values(|m: Mailbox<T>| m.id)
    }
}

impl<T> ChanneledChannel<T> {
    /// The number that the next mailbox will get; every mailbox so far has a smaller one.
    pub closed spec fn next_mailbox(&self) -> u64 {
        self.next_id
    }

    /// The sending end held for `port`.
    pub closed spec fn sender_of(&self, port: u16) -> async_channel::Sender<T> {
        self.channels@[port].tx
    }

    /// The receiving end held for `port`.
    pub closed spec fn receiver_of(&self, port: u16) -> async_channel::Receiver<T> {
        self.channels@[port].rx
    }

    /// Mailbox numbers are below `next_mailbox` and no two ports share one.
    pub closed spec fn wf(&self) -> bool {
        &&& forall|p: u16| #[trigger]
            self.channels@.contains_key(p) ==> self.channels@[p].id < self.next_id
        &&& forall|p: u16, q: u16|
            #![trigger self.channels@[p], self.channels@[q]]
            self.channels@.contains_key(p) && self.channels@.contains_key(q) && p != q
                ==> self.channels@[p].id != self.channels@[q].id
    }

    pub fn new() -> (r: Self)
        ensures
            r.wf(),
            r@ == Map::<u16, u64>::empty(),
            r.next_mailbox() == 0,
    {
        let r = ChanneledChannel { channels: HashMap::new(), next_id: 0 };
        assert(r@ =~= Map::<u16, u64>::empty());
        r
    }

    /// Gives `port` a new, empty mailbox; one it had before is closed and dropped.
    pub fn create_channel(&mut self, port: u16) -> (r: Result<(), RegistryError>)
        requires
            old(self).wf(),
        ensures
            final(self).wf(),
            r is Ok <==> old(self).next_mailbox() < u64::MAX,
            r is Ok ==> final(self)@ == old(self)@.insert(port, old(self).next_mailbox())
                && final(self).next_mailbox() == old(self).next_mailbox() + 1,
            r is Err ==> final(self)@ == old(self)@ && final(self).next_mailbox()
                == old(self).next_mailbox(),
    {
        if self.next_id == u64::MAX {
            return Err(RegistryError::Exhausted);
        }
        let (tx, rx) = async_channel::unbounded::<T>();
        let id = self.next_id;
        if let Some(replaced) = self.channels.insert(port, Mailbox { id, tx, rx }) {
            replaced.tx.close();
        }
        self.next_id = id + 1;
        assert(self@ =~= old(self)@.insert(port, id));
        Ok(())
    }

    /// Closes and drops the mailbox of `port`. Receivers still waiting on it see it
    /// closed once it is empty; its streams are dropped with its last receiver.
    pub fn remove_channel(&mut self, port: u16)
        requires
            old(self).wf(),
        ensures
            final(self).wf(),
            final(self)@ == old(self)@.remove(port),
            final(self).next_mailbox() == old(self).next_mailbox(),
    {
        if let Some(m) = self.channels.remove(&port) {
            m.tx.close();
        }
        assert(self@ =~= old(self)@.remove(port));
    }

    /// Closes and drops every mailbox.
    pub fn remove_all_channels(&mut self)
        requires
            old(self).wf(),
        ensures
            final(self).wf(),
            final(self)@ == Map::<u16, u64>::empty(),
            final(self).next_mailbox() == old(self).next_mailbox(),
    {
        for m in it: self.channels.values() {
            m.tx.close();
        }
        self.channels.clear();
        assert(self@ =~= Map::<u16, u64>::empty());
    }

    /// The number of the mailbox of `port`, if it has one.
    pub fn mailbox_id(&self, port: u16) -> (r: Option<u64>)
        ensures
            r is Some <==> self@.contains_key(port),
            r matches Some(id) ==> id == self@[port],
    {
        match self.channels.get(&port) {
            Some(m) => Some(m.id),
            None => None,
        }
    }

    /// A sending end of the mailbox of `port`, if it has one.
    pub fn get_sender(&self, port: u16) -> (r: Option<async_channel::Sender<T>>)
        ensures
            r is Some <==> self@.contains_key(port),
            r matches Some(tx) ==> tx == self.sender_of(port),
    {
        match self.channels.get(&port) {
            Some(m) => Some(m.tx.clone()),
            None => None,
        }
    }

    /// The receiving end of the mailbox of `port`, if it has one; callers clone it to
    /// wait on the mailbox.
    pub fn get_receiver(&self, port: u16) -> (r: Option<&async_channel::Receiver<T>>)
        ensures
            r is Some <==> self@.contains_key(port),
            r matches Some(rx) ==> *rx == self.receiver_of(port),
    {
        match self.channels.get(&port) {
            Some(m) => Some(&m.rx),
            None => None,
        }
    }

    /// Puts `item` in the mailbox of `port` without waiting. It comes back when `port`
    /// has no mailbox, and only then as `NoSuchPort`.
    pub fn send(&self, port: u16, item: T) -> (r: Result<(), SendError<T>>)
        ensures
            r matches Err(SendError::NoSuchPort(back)) <==> !self@.contains_key(port),
            r matches Err(SendError::NoSuchPort(back)) ==> back == item,
            r matches Err(SendError::Closed(back)) ==> back == item,
    {
        match self.channels.get(&port) {
            None => Err(SendError::NoSuchPort(item)),
            Some(m) => match try_deliver(&m.tx, item) {
                Ok(()) => Ok(()),
                Err(back) => Err(SendError::Closed(back)),
            },
        }
    }
}

/// Two different registered ports never hold the same mailbox number.
pub proof fn lemma_no_cross_port<T>(reg: &ChanneledChannel<T>, p: u16, q: u16)
    requires
        reg.wf(),
        reg@.contains_key(p),
        reg@.contains_key(q),
        p != q,
    ensures
        reg@[p] != reg@[q],
{
    assert(reg.channels@[p].id != reg.channels@[q].id);
}

/// Every registered mailbox is numbered below the next number to be handed out.
pub proof fn lemma_ids_below_next<T>(reg: &ChanneledChannel<T>, p: u16)
    requires
        reg.wf(),
        reg@.contains_key(p),
    ensures
        reg@[p] < reg.next_mailbox(),
{
    assert(reg.channels@.contains_key(p));
}

} // verus!
