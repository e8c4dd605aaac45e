//! The message router: whom a message must reach.

use crate::connection_operations::{find_admin, find_players};
use crate::directory::{texts, views, Directory};
use crate::error::BrokerError;
use crate::models::{Connection, ConnectionView};
use crate::records::{holders, ids, lookup};
use vstd::prelude::*;

verus! {

/// Whom a message reaches. From an admin that holds its role: the connection
/// it names, or, where it names none, every holder of the player role it
/// speaks to. From a connection with a player role: the holder of the admin
/// role it reports to, if there is one. From anyone else: nobody.
pub open spec fn targets(
    records: Seq<ConnectionView>,
    sender: ConnectionView,
    target: Option<Seq<char>>,
) -> Seq<Seq<char>> {
    if sender.role.is_admin() && !sender.que {
        match target {
            Some(t) => seq![t],
            None => ids(holders(records, sender.role.paired_player().unwrap())),
        }
    } else if sender.role.is_player() {
        let admins = holders(records, sender.role.paired_admin().unwrap());
        if admins.len() > 0 {
            seq![admins[0].id]
        } else {
            Seq::empty()
        }
    } else {
        Seq::empty()
    }
}

/// The message router: the connections that a message from `sender` must
/// reach. A named target is taken at its word; whether it exists shows when
/// the message is delivered.
pub fn resolve(dir: &Directory, sender: &str, target: Option<&str>) -> (found: Result<
    Vec<String>,
    BrokerError,
>)
    requires
        dir.wf(),
    ensures
        match found {
            Ok(reached) => {
                &&& lookup(dir@, sender@) matches Some(s)
                &&& texts(reached@) == targets(
                    dir@,
                    s,
                    match target {
                        Some(t) => Some(t@),
                        None => None,
                    },
                )
            },
            Err(e) => e == BrokerError::NotFound && lookup(dir@, sender@).is_none(),
        },
{
    let from = match dir.get(sender) {
        Some(c) => c,
        None => {
            return Err(BrokerError::NotFound);
        },
    };
    let mut reached: Vec<String> = Vec::new();
    if from.role.admin() && !from.que {
        match target {
            Some(t) => {
                let name = String::from_str(t);
                proof {
                    assert(texts(reached@.push(name)) =~= seq![t@]);
                }
                reached.push(name);
            },
            None => {
                match find_players(dir, from.role) {
                    Ok(players) => {
                        reached = id_list(&players);
                    },
                    Err(_) => {},
                }
            },
        }
    } else if from.role.player() {
        match find_admin(dir, from.role) {
            Ok(admin) => {
                proof {
                    assert(texts(reached@.push(admin.id)) =~= seq![admin@.id]);
                }
                reached.push(admin.id);
            },
            Err(_) => {
                proof {
                    assert(texts(reached@) =~= Seq::<Seq<char>>::empty());
                }
            },
        }
    } else {
        proof {
            assert(texts(reached@) =~= Seq::<Seq<char>>::empty());
        }
    }
    Ok(reached)
}

/// The ids of the connections, in their order.
pub fn id_list(connections: &Vec<Connection>) -> (list: Vec<String>)
    ensures
        texts(list@) == ids(views(connections@)),
{
    let mut list: Vec<String> = Vec::new();
    let mut i: usize = 0;
    while i < connections.len()
        invariant
            i <= connections.len(),
            list@.len() == i,
            forall|j: int| 0 <= j < i ==> (#[trigger] list@[j])@ == connections@[j]@.id,
        decreases connections.len() - i,
    {
        list.push(connections[i].id.clone());
        i += 1;
    }
    proof {
        assert(texts(list@) =~= ids(views(connections@)));
    }
    list
}

} // verus!
