//! A waiting room: one server, a few seats, and clients who each look for a
//! free seat, are served there, and leave.
use rand::Rng;
use vstd::prelude::*;

verus! {

/// Fewest clients that come.
pub const MIN_CLIENTS: usize = 5;

/// Most clients that come.
pub const MAX_CLIENTS: usize = 5;

/// Seats in the room.
pub const SEAT_COUNT: usize = 3;

/// Shortest time that serving a client takes, in milliseconds.
pub const MIN_SERVICE_MILLIS: u64 = 4;

/// Longest time that serving a client takes, in milliseconds.
pub const MAX_SERVICE_MILLIS: u64 = 8;

/// The one who serves.
#[derive(Debug, Default)]
pub struct Server {}

/// Someone who comes to be served.
#[derive(Debug, Default)]
pub struct Client {
    pub id: usize,
    pub handled: bool,
}

/// A place to sit while being served.
#[derive(Debug, Default)]
pub struct Seat {
    pub id: usize,
    pub taken: bool,
}

/// A number drawn from the thread's random number generator,
/// `rand::thread_rng`, with `Rng::gen_range` on the closed range from `low`
/// to `high`. The number lies in that range; which one it is, is a matter of
/// chance. An empty range is left out, since `gen_range` panics on it.
#[verifier::external_body]
fn random_between(low: u64, high: u64) -> (drawn: u64)
    requires
        low <= high,
    ensures
        low <= drawn <= high,
{
    rand::thread_rng().gen_range(low..=high)
}

impl Server {
    /// How long serving the next client takes, in milliseconds.
    pub fn service_millis(&self) -> (millis: u64)
        ensures
            MIN_SERVICE_MILLIS <= millis <= MAX_SERVICE_MILLIS,
    {
        random_between(MIN_SERVICE_MILLIS, MAX_SERVICE_MILLIS)
    }

    /// Serves `client`: from now on the client counts as handled.
    pub fn handle(&self, client: &mut Client)
        ensures
            final(client).handled,
            final(client).id == old(client).id,
    {
        client.handled = true;
    }
}

/// The first seat of `seats` that is not taken, by its position.
pub fn first_free(seats: &Vec<Seat>) -> (found: Option<usize>)
    ensures
        match found {
            Some(i) => {
                &&& i < seats@.len()
                &&& !seats@[i as int].taken
                &&& forall|j: int| 0 <= j < i ==> seats@[j].taken
            },
            None => forall|j: int| 0 <= j < seats@.len() ==> seats@[j].taken,
        },
{
    let mut i: usize = 0;
    while i < seats.len()
        invariant
            i <= seats@.len(),
            forall|j: int| 0 <= j < i ==> seats@[j].taken,
        decreases seats@.len() - i,
    {
        if !seats[i].taken {
            return Some(i);
        }
        i += 1;
    }
    None
}

/// How many of `clients` have been handled.
pub open spec fn handled_among(clients: Seq<Client>) -> nat {
    clients.filter(|client: Client| client.handled).len()
}

/// Counts the clients that have been handled.
pub fn count_handled(clients: &Vec<Client>) -> (count: usize)
    ensures
        count == handled_among(clients@),
{
    let ghost handled = |client: Client| client.handled;
    let mut count: usize = 0;
    let mut i: usize = 0;
    while i < clients.len()
        invariant
            i <= clients@.len(),
            handled == (|client: Client| client.handled),
            count == clients@.take(i as int).filter(handled).len(),
            count <= i,
        decreases clients@.len() - i,
    {
        proof {
            let next = clients@.take(i + 1);
            assert(next.drop_last() =~= clients@.take(i as int));
            assert(next.last() == clients@[i as int]);
            reveal(Seq::filter);
        }
        if clients[i].handled {
            count += 1;
        }
        i += 1;
    }
    proof {
        assert(clients@.take(i as int) =~= clients@);
    }
    count
}

} // verus!
