//! What the node reads and writes of the contract side: data records,
//! the contract address search, and the routes' choices.
use vstd::prelude::*;

use crate::address::is_zero_address;

verus! {

/// A 256-bit amount as its four 64-bit limbs, least significant first.
pub type Amount = [u64; 4];

/// The value of an amount.
pub open spec fn amount_value(a: Seq<u64>) -> nat {
    a[0] as nat + a[1] as nat * 0x1_0000_0000_0000_0000 + a[2] as nat
        * 0x1_0000_0000_0000_0000_0000_0000_0000_0000 + a[3] as nat
        * 0x1_0000_0000_0000_0000_0000_0000_0000_0000_0000_0000_0000_0000
}

/// A data record of a client contract: its name, where the data is, how long
/// it is kept, and when it was created.
#[derive(Debug, Clone)]
pub struct Data {
    pub name: String,
    pub data: Amount,
    pub time_to_store: Amount,
    pub time_created: Amount,
}

/// The zero amount.
pub fn zero_amount() -> (a: Amount)
    ensures
        amount_value(a@) == 0,
        forall|i: int| 0 <= i < 4 ==> #[trigger] a@[i] == 0,
{
    let a: Amount = [0u64; 4];
    a
}

impl Data {
    /// The empty record: no name and every amount zero.
    pub fn default() -> (d: Data)
        ensures
            d.name@ == Seq::<char>::empty(),
            amount_value(d.data@) == 0,
            amount_value(d.time_to_store@) == 0,
            amount_value(d.time_created@) == 0,
    {
        Data {
            name: String::new(),
            data: zero_amount(),
            time_to_store: zero_amount(),
            time_created: zero_amount(),
        }
    }
}

/// A new record for `name` kept for `time_to_store`; where the data lies and
/// when it was created are left at zero for the contract to fill in.
pub fn create_data(name: &str, time_to_store: Amount) -> (d: Data)
    ensures
        d.name@ == name@,
        d.time_to_store == time_to_store,
        amount_value(d.data@) == 0,
        amount_value(d.time_created@) == 0,
{
    Data { name: name.to_owned(), data: zero_amount(), time_to_store, time_created: zero_amount() }
}

/// The records that a summary route answers with: those it read, or one
/// empty record when it read none.
pub fn data_or_default(res: Option<Vec<Data>>) -> (v: Vec<Data>)
    ensures
        res matches Some(r) ==> v@ == r@,
        res is None ==> v@.len() == 1 && v@[0].name@ == Seq::<char>::empty() && amount_value(
            v@[0].data@,
        ) == 0 && amount_value(v@[0].time_to_store@) == 0 && amount_value(v@[0].time_created@)
            == 0,
{
    match res {
        Some(r) => r,
        None => {
            let mut v = Vec::new();
            v.push(Data::default());
            v
        },
    }
}

/// True when a summary route asks for every record (the name `all`).
pub fn wants_all_data(name: &String) -> (r: bool)
    ensures
        r == (name@ == seq!['a', 'l', 'l']),
{
    let all = "all";
    proof {
        reveal_strlit("all");
    }
    let all_owned = all.to_owned();
    proof {
        assert(all_owned@ =~= seq!['a', 'l', 'l']);
    }
    name.eq(&all_owned)
}

/// True when the factory has no contract for the client yet (it answered
/// with the zero address), so that one must be created.
pub fn needs_new_client(client_addr: &[u8; 20]) -> (r: bool)
    ensures
        r <==> forall|i: int| 0 <= i < 20 ==> #[trigger] client_addr@[i] == 0,
{
    is_zero_address(client_addr)
}

/// Follows the contract-creation events while the client waits for its own
/// contract: the last created address, and whether it belongs to the client.
pub struct ContractWatch {
    pub address: [u8; 20],
    pub found: bool,
}

impl ContractWatch {
    /// Nothing seen yet: the zero address.
    pub fn new() -> (w: ContractWatch)
        ensures
            !w.found,
            forall|i: int| 0 <= i < 20 ==> #[trigger] w.address@[i] == 0,
    {
        ContractWatch { address: crate::address::zero_address(), found: false }
    }

    /// Takes in one creation event: its contract becomes the last seen, and
    /// the watch ends when its owner is the client.
    pub fn observe(&mut self, contract_address: [u8; 20], owner: &[u8; 20], client: &[u8; 20])
        ensures
            final(self).address == contract_address,
            final(self).found == (owner@ == client@),
    {
        self.address = contract_address;
        self.found = crate::address::compare_addresses(owner, client)
            == crate::address::AddressOrder::Equal;
    }
}

} // verus!
