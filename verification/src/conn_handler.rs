//! The list of the clients that are connected to a server.

use vstd::prelude::*;
use crate::err::Error;
use crate::message::Message;

verus! {

/// A connected client.
#[derive(Debug)]
pub struct Connection {
    pub id: u64,
    pub name: String,
}

/// The clients connected to a server, in the order in which they came.
#[derive(Debug)]
pub struct ConnHandler {
    pub connections: Vec<Connection>,
}

impl View for ConnHandler {
    type V = Seq<(u64, Seq<char>)>;

    /// The identifier and the name of each connected client.
    open spec fn view(&self) -> Seq<(u64, Seq<char>)> {
        Seq::new(
            self.connections@.len(),
            |i: int| (self.connections@[i].id, self.connections@[i].name@),
        )
    }
}

/// The position of the first client with the identifier `id`, or the
/// length of the list where there is none.
pub open spec fn first_position(list: Seq<(u64, Seq<char>)>, id: u64) -> int
    decreases list.len(),
{
    if list.len() == 0 {
        0
    } else if list[0].0 == id {
        0
    } else {
        1 + first_position(list.skip(1), id)
    }
}

/// The first position of an identifier is in the list exactly where some
/// client has the identifier; no client before it has the identifier.
pub proof fn lemma_first_position(list: Seq<(u64, Seq<char>)>, id: u64)
    ensures
        0 <= first_position(list, id) <= list.len(),
        first_position(list, id) < list.len() ==> list[first_position(list, id)].0 == id,
        forall|i: int| 0 <= i < first_position(list, id) ==> list[i].0 != id,
    decreases list.len(),
{
    if list.len() > 0 && list[0].0 != id {
        lemma_first_position(list.skip(1), id);
        let rest = list.skip(1);
        assert forall|i: int| 0 <= i < first_position(list, id) implies list[i].0 != id by {
            if i > 0 {
                assert(rest[i - 1] == list[i]);
            }
        }
    }
}

impl ConnHandler {
    /// A handler with no client.
    pub fn new() -> (r: ConnHandler)
        ensures
            r@ == Seq::<(u64, Seq<char>)>::empty(),
    {
        let r = ConnHandler { connections: Vec::new() };
        assert(r@ =~= Seq::<(u64, Seq<char>)>::empty());
        r
    }

    /// Takes in the client that greets with `msg`.
    ///
    /// A greeting adds the client at the end of the list and gives its
    /// identifier. Any other message is an error and changes nothing.
    pub fn on_connected(&mut self, msg: Message) -> (r: Result<u64, Error>)
        ensures
            match msg@ {
                crate::message::MessageView::HelloFromClient(id, name) => r == Ok::<u64, Error>(id)
                    && final(self)@ == old(self)@.push((id, name)),
                _ => r == Err::<u64, Error>(Error::InternalError) && final(self)@ == old(self)@,
            },
    {
        match msg {
            Message::HelloFromClient(id, s) => {
                self.connections.push(Connection { id, name: s });
                assert(self@ =~= old(self)@.push((id, s@)));
                Ok(id)
            },
            _ => Err(Error::InternalError),
        }
    }

    /// Drops the first client with the identifier `id`.
    ///
    /// It is an error, and nothing changes, where no client has the
    /// identifier.
    pub fn on_disconnected(&mut self, id: u64) -> (r: Result<(), Error>)
        ensures
            first_position(old(self)@, id) < old(self)@.len() ==> r == Ok::<(), Error>(())
                && final(self)@ == old(self)@.remove(first_position(old(self)@, id)),
            first_position(old(self)@, id) >= old(self)@.len() ==> r == Err::<(), Error>(
                Error::InternalError,
            ) && final(self)@ == old(self)@,
    {
        proof {
            lemma_first_position(self@, id);
        }
        let mut pos: usize = 0;
        while pos < self.connections.len() && self.connections[pos].id != id
            invariant
                0 <= pos <= self.connections.len(),
                forall|i: int| 0 <= i < pos ==> self@[i].0 != id,
            decreases self.connections.len() - pos,
        {
            pos = pos + 1;
        }
        if pos == self.connections.len() {
            return Err(Error::InternalError);
        }
        assert(self@[pos as int].0 == id);
        assert(pos == first_position(self@, id));
        self.connections.remove(pos);
        assert(self@ =~= old(self)@.remove(pos as int));
        Ok(())
    }
}

} // verus!
