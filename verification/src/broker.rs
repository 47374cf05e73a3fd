//! Brokers (cache servers) as the nodes announce them on the `srvList/`
//! topics, and the lists that clients keep of them.
use vstd::prelude::*;
use vstd::utf8::*;

use crate::address::{self, compare_addresses, parse_address, zero_address, AddressOrder};
use crate::text::{
    self, chars_from, chars_of, decode_text, parse_decimal, push_decimal, push_text, split_chars,
    string_from_chars,
};

verus! {

/// A cache server that a client can talk to: where it listens and the
/// address of its contract.
#[derive(Debug, Clone)]
pub struct Broker {
    pub ip: String,
    pub port: u16,
    pub address: [u8; 20],
}

/// The plain values of a broker: its host text, port and address bytes.
pub type BrokerFields = (Seq<char>, u16, Seq<u8>);

/// True when `b` holds exactly the values `f`.
pub open spec fn has_fields(b: Broker, f: BrokerFields) -> bool {
    b.ip@ == f.0 && b.port == f.1 && b.address@ == f.2
}

/// The values of the placeholder broker: no host, port 0, the zero address.
pub open spec fn default_fields() -> BrokerFields {
    (Seq::<char>::empty(), 0u16, Seq::new(20, |i: int| 0u8))
}

impl Broker {
    /// The placeholder broker: empty host, port 0 and the zero address.
    pub fn default() -> (b: Broker)
        ensures
            has_fields(b, default_fields()),
    {
        let a = zero_address();
        proof {
            assert(a@ =~= Seq::new(20, |i: int| 0u8));
        }
        Broker { ip: String::new(), port: 0, address: a }
    }

    /// A broker with the same values as `self`.
    pub fn copy(&self) -> (b: Broker)
        ensures
            b.ip@ == self.ip@,
            b.port == self.port,
            b.address@ == self.address@,
    {
        Broker { ip: self.ip.clone(), port: self.port, address: self.address }
    }
}

/// Why a `srvList/` announcement could not be read.
#[derive(PartialEq, Eq, Structural, Debug, Clone, Copy)]
pub enum BrokerParseError {
    /// The topic is not UTF-8.
    TopicNotUtf8,
    /// The text after the first `:` of the topic is not a port number.
    InvalidPort,
    /// The payload is not UTF-8.
    PayloadNotUtf8,
    /// The payload is not an address.
    InvalidAddress,
}

/// The topic, read as text and cut at each `:`.
pub open spec fn topic_pieces(topic: Seq<u8>) -> Seq<Seq<char>> {
    text::split_on(decode_utf8(topic), ':')
}

/// The announcements that `extract_broker` can read without failing hard:
/// a topic that is text holds at least one `:`.
pub open spec fn announcement_readable(topic: Seq<u8>) -> bool {
    valid_utf8(topic) ==> topic_pieces(topic).len() >= 2
}

/// The prefix of every announcement topic: `srvList/`.
pub open spec fn announcement_prefix() -> Seq<char> {
    seq!['s', 'r', 'v', 'L', 'i', 's', 't', '/']
}

/// `s` without one leading `srvList/`.
pub open spec fn without_announcement_prefix(s: Seq<char>) -> Seq<char> {
    if s.len() >= 8 && s.take(8) == announcement_prefix() {
        s.skip(8)
    } else {
        s
    }
}

/// What an announcement `srvList/host:port` says: the host is the topic up
/// to the first `:`, without its `srvList/`; the port is the text between
/// the first and the second `:`; and the payload is the address in text.
pub open spec fn announcement(topic: Seq<u8>, payload: Seq<u8>) -> Result<
    BrokerFields,
    BrokerParseError,
> {
    if !valid_utf8(topic) {
        Err(BrokerParseError::TopicNotUtf8)
    } else {
        match text::parse_u16_text(topic_pieces(topic)[1]) {
            None => Err(BrokerParseError::InvalidPort),
            Some(port) => if !valid_utf8(payload) {
                Err(BrokerParseError::PayloadNotUtf8)
            } else {
                match address::address_from_text(decode_utf8(payload)) {
                    None => Err(BrokerParseError::InvalidAddress),
                    Some(a) => Ok((without_announcement_prefix(topic_pieces(topic)[0]), port, a)),
                }
            },
        }
    }
}

/// Reads a broker from a `srvList` announcement: the topic
/// (`srvList/host:port`, where the host is everything after `srvList/` and
/// before the first `:`) and the payload (the broker's address in text).
pub fn extract_broker(topic: &[u8], payload: &[u8]) -> (r: Result<Broker, BrokerParseError>)
    requires
        announcement_readable(topic@),
    ensures
        match r {
            Ok(b) => announcement(topic@, payload@) == Ok::<BrokerFields, BrokerParseError>(
                (b.ip@, b.port, b.address@),
            ),
            Err(e) => announcement(topic@, payload@) == Err::<BrokerFields, BrokerParseError>(e),
        },
{
    let topic_text = match decode_text(topic) {
        Some(t) => t,
        None => return Err(BrokerParseError::TopicNotUtf8),
    };
    let topic_chars = chars_of(topic_text.as_str());
    let pieces = split_chars(topic_chars.as_slice(), ':');
    proof {
        assert(pieces.deep_view()[1] == pieces@[1]@);
        assert(pieces.deep_view()[0] == pieces@[0]@);
    }
    let port = match parse_decimal(pieces[1].as_slice(), 65535) {
        Some(p) => p as u16,
        None => return Err(BrokerParseError::InvalidPort),
    };
    let payload_text = match decode_text(payload) {
        Some(t) => t,
        None => return Err(BrokerParseError::PayloadNotUtf8),
    };
    let address = match parse_address(payload_text.as_str()) {
        Some(a) => a,
        None => return Err(BrokerParseError::InvalidAddress),
    };
    let host = strip_announcement_prefix(pieces[0].as_slice());
    let ip = string_from_chars(host.as_slice());
    Ok(Broker { ip, port, address })
}

/// `cs` without one leading `srvList/`.
fn strip_announcement_prefix(cs: &[char]) -> (r: Vec<char>)
    ensures
        r@ == without_announcement_prefix(cs@),
{
    let prefix = ['s', 'r', 'v', 'L', 'i', 's', 't', '/'];
    proof {
        assert(prefix@ =~= announcement_prefix());
    }
    if cs.len() < 8 {
        return chars_from(cs, 0);
    }
    let mut i: usize = 0;
    while i < 8
        invariant
            i <= 8,
            cs@.len() >= 8,
            prefix@ == announcement_prefix(),
            cs@.take(i as int) =~= prefix@.take(i as int),
        decreases 8 - i,
    {
        if cs[i] != prefix[i] {
            proof {
                assert(cs@.take(8)[i as int] != announcement_prefix()[i as int]);
            }
            return chars_from(cs, 0);
        }
        proof {
            assert(cs@.take(i + 1) =~= cs@.take(i as int).push(cs@[i as int]));
            assert(prefix@.take(i + 1) =~= prefix@.take(i as int).push(prefix@[i as int]));
        }
        i = i + 1;
    }
    proof {
        assert(prefix@.take(8) =~= prefix@);
    }
    chars_from(cs, 8)
}

/// `host:port`, the form in which a client names a broker (or itself) in
/// topics and requests.
pub open spec fn endpoint_text(host: Seq<char>, port: u16) -> Seq<char> {
    host + seq![':'] + text::decimal_text(port as nat)
}

/// Writes `host:port`.
pub fn endpoint(host: &str, port: u16) -> (s: String)
    ensures
        s@ == endpoint_text(host@, port),
{
    let mut s = host.to_owned();
    push_char_text(&mut s, ':');
    push_decimal(&mut s, port as u64);
    proof {
        assert(s@ =~= endpoint_text(host@, port));
    }
    s
}

/// Appends one character.
fn push_char_text(s: &mut String, c: char)
    ensures
        final(s)@ == old(s)@.push(c),
{
    let cs = [c];
    let t = string_from_chars(&cs);
    proof {
        assert(t@ =~= seq![c]);
    }
    let mut out = s.clone();
    push_text(&mut out, t.as_str());
    proof {
        assert(out@ =~= s@.push(c));
    }
    *s = out;
}

/// The topic on which a broker is reached: `host:port`.
pub fn broker_topic(brk: &Broker) -> (s: String)
    ensures
        s@ == endpoint_text(brk.ip@, brk.port),
{
    endpoint(brk.ip.as_str(), brk.port)
}

/// The beginning of every broker announcement topic.
pub open spec fn srvlist_text() -> Seq<char> {
    seq!['s', 'r', 'v', 'L', 'i', 's', 't']
}

/// The topic on which a node announces the broker at `host:port`:
/// `srvList/host:port`.
pub open spec fn announcement_topic_text(host: Seq<char>, port: u16) -> Seq<char> {
    srvlist_text() + seq!['/'] + endpoint_text(host, port)
}

/// Writes the announcement topic `srvList/host:port`.
pub fn announcement_topic(host: &str, port: u16) -> (s: String)
    ensures
        s@ == announcement_topic_text(host@, port),
{
    let prefix = "srvList/";
    proof {
        reveal_strlit("srvList/");
    }
    let mut s = prefix.to_owned();
    let e = endpoint(host, port);
    push_text(&mut s, e.as_str());
    proof {
        assert(s@ =~= announcement_topic_text(host@, port));
    }
    s
}

/// A broker that a node announces is read back by the clients with the
/// same host, port and address, provided the host holds no `:`.
pub proof fn lemma_announcement_round_trip(host: Seq<char>, port: u16, a: Seq<u8>)
    requires
        a.len() == 20,
        text::free_of(host, ':'),
    ensures
        announcement_readable(encode_utf8(announcement_topic_text(host, port))),
        announcement(encode_utf8(announcement_topic_text(host, port)), encode_utf8(address::address_text(a)))
            == Ok::<BrokerFields, BrokerParseError>((host, port, a)),
{
    let head = srvlist_text() + seq!['/'] + host;
    let digits = text::decimal_text(port as nat);
    let topic = announcement_topic_text(host, port);
    assert(topic =~= head.push(':') + digits);
    text::lemma_decimal_text_reads_back(port as nat);
    assert(text::free_of(digits, ':')) by {
        assert forall|i: int| 0 <= i < digits.len() implies #[trigger] digits[i] != ':' by {
            assert(text::is_digit(digits[i]));
        }
    }
    assert(text::free_of(head, ':')) by {
        assert forall|i: int| 0 <= i < head.len() implies #[trigger] head[i] != ':' by {
            if i >= 8 {
                assert(head[i] == host[i - 8]);
            }
        }
    }
    text::lemma_split_on_plain(head, ':');
    text::lemma_split_on_push_sep(head, ':');
    text::lemma_split_on_append_plain(head.push(':'), digits, ':');
    let pieces = text::split_on(topic, ':');
    assert(Seq::<char>::empty() + digits =~= digits);
    assert(pieces =~= seq![head, digits]);
    encode_utf8_valid_utf8(topic);
    encode_utf8_decode_utf8(topic);
    encode_utf8_valid_utf8(address::address_text(a));
    encode_utf8_decode_utf8(address::address_text(a));
    address::lemma_address_text_round_trip(a);
    assert(text::parse_u16_text(digits) == Some(port));
    assert(head.take(8) =~= announcement_prefix());
    assert(head.skip(8) =~= host);
}

/// The routes' broker: host `ip` and the port given in text, with the zero
/// address.
pub fn broker_from_route(ip: String, port: &str) -> (b: Broker)
    requires
        text::parse_u16_text(port@) is Some,
    ensures
        b.ip@ == ip@,
        Some(b.port) == text::parse_u16_text(port@),
        b.address@ == default_fields().2,
{
    let mut b = Broker::default();
    let cs = chars_of(port);
    let p = parse_decimal(cs.as_slice(), 65535);
    b.ip = ip;
    match p {
        Some(v) => {
            b.port = v as u16;
        },
        None => {},
    }
    b
}

/// True when the topic is a broker announcement (`srvList...`).
pub open spec fn is_announcement_topic(topic: Seq<u8>) -> bool {
    &&& topic.len() >= 7
    &&& topic[0] == 115u8 && topic[1] == 114u8 && topic[2] == 118u8 && topic[3] == 76u8
    &&& topic[4] == 105u8 && topic[5] == 115u8 && topic[6] == 116u8
}

/// Tests whether a topic begins with `srvList`.
pub fn starts_with_srvlist(topic: &[u8]) -> (r: bool)
    ensures
        r == is_announcement_topic(topic@),
{
    topic.len() >= 7 && topic[0] == 115u8 && topic[1] == 114u8 && topic[2] == 118u8 && topic[3]
        == 76u8 && topic[4] == 105u8 && topic[5] == 115u8 && topic[6] == 116u8
}

/// The messages that `handle_publish` takes without failing hard: every
/// `srvList` message is a readable announcement.
pub open spec fn publish_acceptable(topic: Seq<u8>, payload: Seq<u8>) -> bool {
    is_announcement_topic(topic) ==> (announcement_readable(topic) && announcement(
        topic,
        payload,
    ) is Ok)
}

/// Tests `publish_acceptable`, so that a caller can refuse a message
/// before `handle_publish` sees it.
pub fn is_publish_acceptable(topic: &[u8], payload: &[u8]) -> (r: bool)
    ensures
        r == publish_acceptable(topic@, payload@),
{
    if !starts_with_srvlist(topic) {
        return true;
    }
    if !is_announcement_readable(topic) {
        return false;
    }
    extract_broker(topic, payload).is_ok()
}

/// Tests `announcement_readable`.
pub fn is_announcement_readable(topic: &[u8]) -> (r: bool)
    ensures
        r == announcement_readable(topic@),
{
    match decode_text(topic) {
        None => true,
        Some(t) => {
            let cs = chars_of(t.as_str());
            let pieces = split_chars(cs.as_slice(), ':');
            pieces.len() >= 2
        },
    }
}

/// Handles a message that a client receives: a `srvList` announcement adds
/// its broker to `brokers`; any other message leaves the list as it is.
pub fn handle_publish(topic: &[u8], payload: &[u8], brokers: &mut Vec<Broker>)
    requires
        publish_acceptable(topic@, payload@),
    ensures
        is_announcement_topic(topic@) ==> {
            &&& final(brokers)@.len() == old(brokers)@.len() + 1
            &&& final(brokers)@.take(old(brokers)@.len() as int) == old(brokers)@
            &&& announcement(topic@, payload@) == Ok::<BrokerFields, BrokerParseError>(
                (
                    final(brokers)@.last().ip@,
                    final(brokers)@.last().port,
                    final(brokers)@.last().address@,
                ),
            )
        },
        !is_announcement_topic(topic@) ==> final(brokers)@ == old(brokers)@,
{
    if starts_with_srvlist(topic) {
        match extract_broker(topic, payload) {
            Ok(b) => {
                brokers.push(b);
                proof {
                    assert(brokers@.take(old(brokers)@.len() as int) =~= old(brokers)@);
                }
            },
            Err(_) => {},
        }
    }
}

/// The first broker of a non-empty list.
pub fn first_broker(brokers: &Vec<Broker>) -> (b: Broker)
    requires
        brokers@.len() > 0,
    ensures
        b.ip@ == brokers@[0].ip@,
        b.port == brokers@[0].port,
        b.address@ == brokers@[0].address@,
{
    brokers[0].copy()
}

/// True when the list is in address order, as a binary search wants it.
pub open spec fn sorted_by_address(brokers: Seq<Broker>) -> bool {
    forall|i: int, j: int|
        0 <= i < j < brokers.len() ==> !address::bytes_less(
            #[trigger] brokers[j].address@,
            #[trigger] brokers[i].address@,
        )
}

/// A list whose addresses strictly increase (byte-wise, first byte most
/// significant) is in address order, so the search finds every address it
/// holds.
pub proof fn lemma_increasing_list_sorted(brokers: Seq<Broker>)
    requires
        forall|i: int, j: int|
            0 <= i < j < brokers.len() ==> address::bytes_less(
                #[trigger] brokers[i].address@,
                #[trigger] brokers[j].address@,
            ),
        forall|i: int| 0 <= i < brokers.len() ==> (#[trigger] brokers[i].address@).len() == 20,
    ensures
        sorted_by_address(brokers),
{
    assert forall|i: int, j: int| 0 <= i < j < brokers.len() implies !address::bytes_less(
        #[trigger] brokers[j].address@,
        #[trigger] brokers[i].address@,
    ) by {
        address::lemma_bytes_less_asymmetric(brokers[i].address@, brokers[j].address@);
    }
}

/// Looks for a broker with the given address by binary search. A position
/// that it returns holds that address; on a list in address order it finds
/// the address whenever the list holds it.
pub fn search_by_address(brokers: &Vec<Broker>, address: &[u8; 20]) -> (r: Option<usize>)
    ensures
        r matches Some(i) ==> i < brokers@.len() && brokers@[i as int].address@ == address@,
        (sorted_by_address(brokers@) && exists|k: int|
            0 <= k < brokers@.len() && #[trigger] brokers@[k].address@ == address@) ==> r is Some,
{
    let mut lo: usize = 0;
    let mut hi: usize = brokers.len();
    while lo < hi
        invariant
            lo <= hi <= brokers@.len(),
            sorted_by_address(brokers@) ==> forall|k: int|
                0 <= k < lo ==> #[trigger] brokers@[k].address@ != address@,
            sorted_by_address(brokers@) ==> forall|k: int|
                hi <= k < brokers@.len() ==> #[trigger] brokers@[k].address@ != address@,
        decreases hi - lo,
    {
        let mid = lo + (hi - lo) / 2;
        match compare_addresses(&brokers[mid].address, address) {
            AddressOrder::Equal => {
                return Some(mid);
            },
            AddressOrder::Less => {
                proof {
                    if sorted_by_address(brokers@) {
                        assert forall|k: int| 0 <= k < mid + 1 implies #[trigger] brokers@[k].address@
                            != address@ by {
                            if k < mid {
                                assert(!address::bytes_less(brokers@[mid as int].address@, brokers@[k].address@));
                            }
                        }
                    }
                }
                lo = mid + 1;
            },
            AddressOrder::Greater => {
                proof {
                    if sorted_by_address(brokers@) {
                        assert forall|k: int| mid <= k < brokers@.len() implies #[trigger] brokers@[k].address@
                            != address@ by {
                            if k > mid {
                                assert(!address::bytes_less(brokers@[k].address@, brokers@[mid as int].address@));
                            }
                        }
                    }
                }
                hi = mid;
            },
        }
    }
    None
}

/// True when some broker of the list has the given address.
pub open spec fn lists_address(brokers: Seq<Broker>, address: Seq<u8>) -> bool {
    exists|k: int| 0 <= k < brokers.len() && #[trigger] brokers[k].address@ == address
}

/// True when `b` has the values of a broker of the list whose address is
/// `address`.
pub open spec fn listed_with(brokers: Seq<Broker>, address: Seq<u8>, b: Broker) -> bool {
    exists|k: int|
        0 <= k < brokers.len() && #[trigger] brokers[k].address@ == address && has_fields(
            brokers[k],
            (b.ip@, b.port, b.address@),
        )
}

/// The broker that a contract route talks to: the one with the given address
/// when the search finds it, else the placeholder broker.
pub fn select_broker(brokers: &Vec<Broker>, address: &[u8; 20]) -> (b: Broker)
    ensures
        listed_with(brokers@, address@, b) || has_fields(b, default_fields()),
        (sorted_by_address(brokers@) && lists_address(brokers@, address@)) ==> listed_with(
            brokers@,
            address@,
            b,
        ),
{
    match search_by_address(brokers, address) {
        Some(i) => {
            let b = brokers[i].copy();
            proof {
                assert(has_fields(brokers@[i as int], (b.ip@, b.port, b.address@)));
            }
            b
        },
        None => Broker::default(),
    }
}

/// The broker that a contract route talks to, for a contract address given
/// in text: `select_broker` with that address.
pub fn broker_for_contract(brokers: &Vec<Broker>, contract: &str) -> (b: Broker)
    requires
        address::address_from_text(contract@) is Some,
    ensures
        listed_with(brokers@, address::address_from_text(contract@)->0, b) || has_fields(
            b,
            default_fields(),
        ),
        (sorted_by_address(brokers@) && lists_address(
            brokers@,
            address::address_from_text(contract@)->0,
        )) ==> listed_with(brokers@, address::address_from_text(contract@)->0, b),
{
    match parse_address(contract) {
        Some(a) => select_broker(brokers, &a),
        None => Broker::default(),
    }
}

/// The most polls that a client spends collecting the broker list.
pub const MAX_LIST_POLLS: u32 = 10;

/// What one poll of the client's connection gave while it collects the
/// broker list.
#[derive(Debug, Clone)]
pub enum PollOutcome {
    /// A publication (topic and payload).
    Publish { topic: Vec<u8>, payload: Vec<u8> },
    /// Any other packet.
    Other,
    /// No packet came in time.
    TimedOut,
}

/// The broker list as a client collects it from the retained `srvList`
/// announcements: at most `MAX_LIST_POLLS` polls, ending early when a poll
/// times out.
pub struct BrokerListing {
    pub brokers: Vec<Broker>,
    pub polls: u32,
    pub timed_out: bool,
}

/// The polls that a listing can take: a publication's topic is readable.
pub open spec fn poll_acceptable(outcome: PollOutcome) -> bool {
    outcome matches PollOutcome::Publish { topic, .. } ==> announcement_readable(topic@)
}

impl BrokerListing {
    /// True when the listing never went past its poll budget.
    pub open spec fn well_formed(&self) -> bool {
        &&& self.polls <= MAX_LIST_POLLS
        &&& self.brokers@.len() <= self.polls
    }

    /// True when the listing still polls.
    pub open spec fn polling(&self) -> bool {
        !self.timed_out && self.polls < MAX_LIST_POLLS
    }

    /// An empty listing that has not polled yet.
    pub fn new() -> (l: BrokerListing)
        ensures
            l.well_formed(),
            l.brokers@.len() == 0,
            l.polls == 0,
            !l.timed_out,
    {
        BrokerListing { brokers: Vec::new(), polls: 0, timed_out: false }
    }

    /// True when the listing wants another poll.
    pub fn wants_poll(&self) -> (r: bool)
        ensures
            r == self.polling(),
    {
        !self.timed_out && self.polls < MAX_LIST_POLLS
    }

    /// Takes in the outcome of one poll: an announcement that can be read adds
    /// its broker, one that cannot is handed back to be reported, and a
    /// timeout ends the listing.
    pub fn record(&mut self, outcome: PollOutcome) -> (report: Option<BrokerParseError>)
        requires
            old(self).well_formed(),
            old(self).polling(),
            poll_acceptable(outcome),
        ensures
            final(self).well_formed(),
            final(self).polls == old(self).polls + 1,
            final(self).timed_out == (outcome is TimedOut),
            match outcome {
                PollOutcome::Publish { topic, payload } => match announcement(topic@, payload@) {
                    Ok(f) => {
                        &&& report is None
                        &&& final(self).brokers@.len() == old(self).brokers@.len() + 1
                        &&& final(self).brokers@.take(old(self).brokers@.len() as int)
                            == old(self).brokers@
                        &&& has_fields(final(self).brokers@.last(), f)
                    },
                    Err(e) => report == Some(e) && final(self).brokers@ == old(self).brokers@,
                },
                _ => report is None && final(self).brokers@ == old(self).brokers@,
            },
    {
        self.polls = self.polls + 1;
        match outcome {
            PollOutcome::Publish { topic, payload } => {
                match extract_broker(topic.as_slice(), payload.as_slice()) {
                    Ok(b) => {
                        self.brokers.push(b);
                        proof {
                            assert(self.brokers@.take(old(self).brokers@.len() as int)
                                =~= old(self).brokers@);
                        }
                        None
                    },
                    Err(e) => Some(e),
                }
            },
            PollOutcome::Other => None,
            PollOutcome::TimedOut => {
                self.timed_out = true;
                None
            },
        }
    }

    /// The brokers collected, in the order of their announcements.
    pub fn into_brokers(self) -> (v: Vec<Broker>)
        ensures
            v@ == self.brokers@,
    {
        self.brokers
    }
}

/// A listing never takes more than its budget of polls, so it never holds
/// more brokers than that, and after a timeout it wants no more.
pub proof fn lemma_listing_bounded(l: BrokerListing)
    requires
        l.well_formed(),
    ensures
        l.polls <= MAX_LIST_POLLS,
        l.brokers@.len() <= MAX_LIST_POLLS,
        l.timed_out ==> !l.polling(),
        l.polls == MAX_LIST_POLLS ==> !l.polling(),
{
}

} // verus!
