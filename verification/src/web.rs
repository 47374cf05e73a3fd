//! The client's web front: its fixed answers and the requests it sends to
//! a broker.
use vstd::prelude::*;

use crate::text::push_text;

verus! {

/// The fairing that lets browsers of any origin call the client's routes.
pub struct Cors;

impl Cors {
    /// The fairing's name.
    pub fn name(&self) -> (s: &'static str)
        ensures
            s@ == "Cross-Origin-Resource-Sharing Fairing"@,
    {
        "Cross-Origin-Resource-Sharing Fairing"
    }

    /// The headers that the fairing sets on every response, in order.
    pub fn headers(&self) -> (h: Vec<(&'static str, &'static str)>)
        ensures
            h@.len() == 4,
            h@[0].0@ == "Access-Control-Allow-Origin"@ && h@[0].1@ == "*"@,
            h@[1].0@ == "Access-Control-Allow-Methods"@ && h@[1].1@
                == "POST, PATCH, PUT, DELETE, HEAD, OPTIONS, GET"@,
            h@[2].0@ == "Access-Control-Allow-Headers"@ && h@[2].1@ == "*"@,
            h@[3].0@ == "Access-Control-Allow-Credentials"@ && h@[3].1@ == "true"@,
    {
        let mut h = Vec::new();
        h.push(("Access-Control-Allow-Origin", "*"));
        h.push(("Access-Control-Allow-Methods", "POST, PATCH, PUT, DELETE, HEAD, OPTIONS, GET"));
        h.push(("Access-Control-Allow-Headers", "*"));
        h.push(("Access-Control-Allow-Credentials", "true"));
        h
    }
}

/// Answer of the greeting route.
pub fn index() -> (r: &'static str)
    ensures
        r@ == "Hello, world!"@,
{
    "Hello, world!"
}

/// Answer of the `OPTIONS` catch-all route: nothing, so that the fairing's
/// headers are all that is sent.
pub fn all_options() {
}

/// The read request that a client publishes for a data item:
/// `READ<name>;SRC<reply address>`.
pub open spec fn read_request_text(data_name: Seq<char>, self_addr: Seq<char>) -> Seq<char> {
    seq!['R', 'E', 'A', 'D'] + data_name + seq![';', 'S', 'R', 'C'] + self_addr
}

/// Writes the read request for `data_name`, to be answered at `self_addr`.
pub fn read_request(data_name: &str, self_addr: &str) -> (s: String)
    ensures
        s@ == read_request_text(data_name@, self_addr@),
        s@ == seq!['R', 'E', 'A', 'D'] + data_name@ + seq![';', 'S', 'R', 'C'] + self_addr@,
{
    let read = "READ";
    let src = ";SRC";
    proof {
        reveal_strlit("READ");
        reveal_strlit(";SRC");
    }
    let mut s = read.to_owned();
    push_text(&mut s, data_name);
    push_text(&mut s, src);
    push_text(&mut s, self_addr);
    proof {
        assert(s@ =~= read_request_text(data_name@, self_addr@));
    }
    s
}


/// A read request holds the whole data name and the whole reply address:
/// `READ`, then the name, then `;SRC`, then the address, and nothing else.
pub proof fn lemma_read_request_parts(data_name: Seq<char>, self_addr: Seq<char>)
    ensures
        read_request_text(data_name, self_addr).len() == 8 + data_name.len() as int + self_addr.len(),
        read_request_text(data_name, self_addr).take(4) == seq!['R', 'E', 'A', 'D'],
        read_request_text(data_name, self_addr).subrange(4, 4 + data_name.len() as int) == data_name,
        read_request_text(data_name, self_addr).subrange(
            4 + data_name.len() as int,
            8 + data_name.len() as int,
        ) == seq![';', 'S', 'R', 'C'],
        read_request_text(data_name, self_addr).skip(8 + data_name.len() as int) == self_addr,
{
    let t = read_request_text(data_name, self_addr);
    assert(t.take(4) =~= seq!['R', 'E', 'A', 'D']);
    assert(t.subrange(4, 4 + data_name.len() as int) =~= data_name);
    assert(t.subrange(4 + data_name.len() as int, 8 + data_name.len() as int) =~= seq![';', 'S', 'R', 'C']);
    assert(t.skip(8 + data_name.len() as int) =~= self_addr);
}

} // verus!
