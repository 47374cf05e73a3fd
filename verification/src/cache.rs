//! The cache side of a node: `MEM;key;value;expiration` messages that reach
//! it through the broker become insertions into the cache, and the outcome
//! of an insertion becomes the node's answer.
use vstd::prelude::*;
use vstd::utf8::*;

use crate::text::{
    self, chars_of, decode_text, parse_decimal, push_decimal, push_text, split_chars,
    string_from_chars,
};

verus! {

/// The error type of the `memcache` client, carried through unchanged.
#[verifier::external_type_specification]
#[verifier::external_body]
pub struct ExMemcacheError(memcache::MemcacheError);

/// The error type of the MQTT (v5) client, carried through unchanged.
#[verifier::external_type_specification]
#[verifier::external_body]
pub struct ExMqttClientError(rumqttc::v5::ClientError);

/// Why a message led to no insertion, or why the insertion failed.
#[derive(Debug)]
pub enum ErrorBrokerMemcached {
    /// An incoming packet that is not a publication.
    NotPublished,
    /// A packet that the node sent.
    Outgoing,
    /// A publication that is not a `MEM` message.
    NotInsertion,
    /// The cache refused the insertion.
    MemcacheError(memcache::MemcacheError),
    /// The broker could not be used.
    BadBroker,
    /// The MQTT client failed.
    ClientError(rumqttc::v5::ClientError),
}

/// A packet of the node's MQTT connection, with what the cache logic reads
/// of it.
#[derive(Debug, Clone)]
pub enum MqttEvent {
    /// A packet that the node sent.
    Outgoing,
    /// A publication that reached the node.
    IncomingPublish { topic: Vec<u8>, payload: Vec<u8> },
    /// Any other packet that reached the node.
    IncomingOther,
}

/// An insertion into the cache: key, value and expiration (in seconds).
#[derive(Debug, Clone)]
pub struct MemInsert {
    pub key: String,
    pub value: String,
    pub exp: u32,
}

/// True when the message begins with the bytes of `MEM`.
pub open spec fn starts_with_mem(msg: Seq<u8>) -> bool {
    msg.len() >= 3 && msg[0] == 77u8 && msg[1] == 69u8 && msg[2] == 77u8
}

/// The message read as text and cut at each `;`.
pub open spec fn mem_fields(msg: Seq<u8>) -> Seq<Seq<char>> {
    text::split_on(decode_utf8(msg), ';')
}

/// The `MEM` messages that can be handled: text with at least four
/// `;`-separated fields, the fourth of them an expiration (a `u32`).
/// Messages that do not begin with `MEM` are all handled (they are refused).
pub open spec fn mem_message_well_formed(msg: Seq<u8>) -> bool {
    starts_with_mem(msg) ==> {
        &&& valid_utf8(msg)
        &&& mem_fields(msg).len() >= 4
        &&& text::parse_u32_text(mem_fields(msg)[3]) is Some
    }
}

/// True when `ins` is the insertion that the message asks for: key and value
/// are its second and third fields and the expiration is its fourth. The
/// first field (`MEM` and whatever follows up to the first `;`) and any
/// fields after the fourth are not read.
pub open spec fn is_request_of(ins: MemInsert, msg: Seq<u8>) -> bool {
    &&& ins.key@ == mem_fields(msg)[1]
    &&& ins.value@ == mem_fields(msg)[2]
    &&& text::parse_u32_text(mem_fields(msg)[3]) == Some(ins.exp)
}

/// What `check_mem` answers for a message: a `MEM` message gives the
/// insertion it asks for; any other message gives `NotInsertion`.
pub open spec fn mem_answer(msg: Seq<u8>, r: Result<MemInsert, ErrorBrokerMemcached>) -> bool {
    &&& starts_with_mem(msg) ==> (r matches Ok(ins) && is_request_of(ins, msg))
    &&& !starts_with_mem(msg) ==> (r matches Err(ErrorBrokerMemcached::NotInsertion))
}

/// Tests whether the message begins with `MEM`.
pub fn is_mem_message(msg: &[u8]) -> (r: bool)
    ensures
        r == starts_with_mem(msg@),
{
    msg.len() >= 3 && msg[0] == 77u8 && msg[1] == 69u8 && msg[2] == 77u8
}

/// Tests `mem_message_well_formed`, so that a caller can refuse a message
/// before `check_mem` sees it.
pub fn is_mem_message_well_formed(msg: &[u8]) -> (r: bool)
    ensures
        r == mem_message_well_formed(msg@),
{
    if !is_mem_message(msg) {
        return true;
    }
    let t = match decode_text(msg) {
        Some(t) => t,
        None => return false,
    };
    let cs = chars_of(t.as_str());
    let fields = split_chars(cs.as_slice(), ';');
    if fields.len() < 4 {
        return false;
    }
    proof {
        assert(fields.deep_view()[3] == fields@[3]@);
    }
    parse_decimal(fields[3].as_slice(), 0xffff_ffff).is_some()
}

/// Reads the insertion that a well-formed `MEM` message asks for.
pub(crate) fn read_mem_request(msg: &[u8]) -> (ins: MemInsert)
    requires
        starts_with_mem(msg@),
        mem_message_well_formed(msg@),
    ensures
        is_request_of(ins, msg@),
{
    let t = match decode_text(msg) {
        Some(t) => t,
        None => {
            proof {
                assert(false);
            }
            String::new()
        },
    };
    let cs = chars_of(t.as_str());
    let fields = split_chars(cs.as_slice(), ';');
    proof {
        assert(fields.deep_view()[1] == fields@[1]@);
        assert(fields.deep_view()[2] == fields@[2]@);
        assert(fields.deep_view()[3] == fields@[3]@);
    }
    let key = string_from_chars(fields[1].as_slice());
    let value = string_from_chars(fields[2].as_slice());
    let exp: u32 = match parse_decimal(fields[3].as_slice(), 0xffff_ffff) {
        Some(v) => v as u32,
        None => 0,
    };
    MemInsert { key, value, exp }
}

/// Decides what a message from the broker asks of the cache: a `MEM`
/// message asks for the insertion of its key and value with its expiration;
/// any other message is refused with `NotInsertion`.
pub fn check_mem(msg: &[u8]) -> (r: Result<MemInsert, ErrorBrokerMemcached>)
    requires
        mem_message_well_formed(msg@),
    ensures
        mem_answer(msg@, r),
{
    if is_mem_message(msg) {
        Ok(read_mem_request(msg))
    } else {
        Err(ErrorBrokerMemcached::NotInsertion)
    }
}

/// The packets that `check_publish` can handle: every publication carries a
/// well-formed message.
pub open spec fn event_well_formed(msg: MqttEvent) -> bool {
    msg matches MqttEvent::IncomingPublish { payload, .. } ==> mem_message_well_formed(payload@)
}

/// Tests `event_well_formed`.
pub fn is_event_well_formed(msg: &MqttEvent) -> (r: bool)
    ensures
        r == event_well_formed(*msg),
{
    match msg {
        MqttEvent::IncomingPublish { payload, .. } => is_mem_message_well_formed(payload.as_slice()),
        _ => true,
    }
}

/// Decides what a packet of the node's connection asks of the cache: a
/// publication is answered exactly as `check_mem` answers its payload
/// (`mem_answer`); a packet that
/// the node sent gives `Outgoing`, and any other incoming packet
/// `NotPublished`.
pub fn check_publish(msg: MqttEvent) -> (r: Result<MemInsert, ErrorBrokerMemcached>)
    requires
        event_well_formed(msg),
    ensures
        match msg {
            MqttEvent::Outgoing => r matches Err(ErrorBrokerMemcached::Outgoing),
            MqttEvent::IncomingOther => r matches Err(ErrorBrokerMemcached::NotPublished),
            MqttEvent::IncomingPublish { payload, .. } => mem_answer(payload@, r),
        },
{
    match msg {
        MqttEvent::Outgoing => Err(ErrorBrokerMemcached::Outgoing),
        MqttEvent::IncomingPublish { payload, .. } => check_mem(payload.as_slice()),
        MqttEvent::IncomingOther => Err(ErrorBrokerMemcached::NotPublished),
    }
}

/// The answer for a stored entry: `key:value`.
pub open spec fn entry_text(key: Seq<char>, value: Seq<char>) -> Seq<char> {
    key + seq![':'] + value
}

/// Turns the cache's answer to an insertion into the node's answer: the
/// stored entry as `key:value`, or the cache's error.
pub fn insert_outcome(key: String, value: String, stored: Result<(), memcache::MemcacheError>) -> (r:
    Result<String, ErrorBrokerMemcached>)
    ensures
        stored is Ok ==> (r matches Ok(s) && s@ == entry_text(key@, value@)),
        stored is Ok ==> (r matches Ok(s) && s@ == key@ + seq![':'] + value@),
        stored matches Err(e) ==> r == Err::<String, ErrorBrokerMemcached>(
            ErrorBrokerMemcached::MemcacheError(e),
        ),
{
    match stored {
        Ok(()) => {
            let sep = ":";
            proof {
                reveal_strlit(":");
            }
            let mut s = key;
            push_text(&mut s, sep);
            push_text(&mut s, value.as_str());
            proof {
                assert(s@ =~= entry_text(key@, value@));
            }
            Ok(s)
        },
        Err(e) => Err(ErrorBrokerMemcached::MemcacheError(e)),
    }
}

/// What the serving loop does with the outcome of a packet.
#[derive(Debug)]
pub enum ServeAction {
    /// Stop serving: the cache failed.
    Halt(memcache::MemcacheError),
    /// Report the stored entry.
    Report(String),
    /// Go on with the next packet.
    Skip,
}

/// The serving loop's decision: a cache failure stops it, a stored entry is
/// reported, and any other refusal is passed over.
pub fn serve_action(res: Result<String, ErrorBrokerMemcached>) -> (a: ServeAction)
    ensures
        res matches Err(ErrorBrokerMemcached::MemcacheError(e)) ==> a == ServeAction::Halt(e),
        res matches Ok(s) ==> a == ServeAction::Report(s),
        (res matches Err(e) && !(e is MemcacheError)) ==> a == ServeAction::Skip,
{
    match res {
        Err(ErrorBrokerMemcached::MemcacheError(e)) => ServeAction::Halt(e),
        Ok(s) => ServeAction::Report(s),
        Err(_) => ServeAction::Skip,
    }
}

/// The pieces of `list` joined with `sep` between them.
pub open spec fn joined(list: Seq<Seq<char>>, sep: Seq<char>) -> Seq<char>
    decreases list.len(),
{
    if list.len() == 0 {
        Seq::<char>::empty()
    } else if list.len() == 1 {
        list[0]
    } else {
        joined(list.drop_last(), sep) + sep + list.last()
    }
}

/// The cache's address: `memcache://ip:port?` followed by the options joined
/// with `&`.
pub open spec fn memcache_url_text(ip: Seq<char>, port: u16, options: Seq<Seq<char>>) -> Seq<char> {
    seq!['m', 'e', 'm', 'c', 'a', 'c', 'h', 'e', ':', '/', '/'] + ip + seq![':'] + text::decimal_text(
        port as nat,
    ) + seq!['?'] + joined(options, seq!['&'])
}

/// Writes the cache's address, `memcache://ip:port?options`, with the
/// options joined by `&`.
pub fn memcache_url(ip: &str, port: u16, options: &Vec<String>) -> (s: String)
    ensures
        s@ == memcache_url_text(ip@, port, options@.map_values(|o: String| o@)),
{
    let scheme = "memcache://";
    let colon = ":";
    let question = "?";
    let amp = "&";
    proof {
        reveal_strlit("memcache://");
        reveal_strlit(":");
        reveal_strlit("?");
        reveal_strlit("&");
    }
    let mut s = scheme.to_owned();
    push_text(&mut s, ip);
    push_text(&mut s, colon);
    push_decimal(&mut s, port as u64);
    push_text(&mut s, question);
    let ghost head = s@;
    let ghost opts = options@.map_values(|o: String| o@);
    let mut i: usize = 0;
    while i < options.len()
        invariant
            i <= options@.len(),
            opts == options@.map_values(|o: String| o@),
            amp@ == seq!['&'],
            s@ == head + joined(opts.take(i as int), seq!['&']),
        decreases options@.len() - i,
    {
        proof {
            assert(opts.take(i + 1).drop_last() =~= opts.take(i as int));
            assert(opts.take(i + 1).last() == options@[i as int]@);
        }
        if i > 0 {
            push_text(&mut s, amp);
        } else {
            proof {
                assert(opts.take(0) =~= Seq::<Seq<char>>::empty());
                assert(opts.take(1) =~= seq![options@[0]@]);
            }
        }
        push_text(&mut s, options[i].as_str());
        i = i + 1;
        proof {
            assert(s@ =~= head + joined(opts.take(i as int), seq!['&']));
        }
    }
    proof {
        assert(opts.take(options@.len() as int) =~= opts);
        assert(s@ =~= memcache_url_text(ip@, port, opts));
    }
    s
}


/// A `MEM` message: a first field (beginning with `MEM`), the key, the value,
/// the expiration, and a tail of further fields (empty or beginning with `;`):
/// `first;key;value;expiration` followed by the tail.
pub open spec fn mem_message_text(
    first: Seq<char>,
    key: Seq<char>,
    value: Seq<char>,
    exp: u32,
    tail: Seq<char>,
) -> Seq<char> {
    first + seq![';'] + key + seq![';'] + value + seq![';'] + text::decimal_text(exp as nat) + tail
}

proof fn lemma_encode_mem_prefix(rest: Seq<char>)
    ensures
        starts_with_mem(encode_utf8(seq!['M', 'E', 'M'] + rest)),
{
    let s = seq!['M', 'E', 'M'] + rest;
    assert(s.drop_first() =~= seq!['E', 'M'] + rest);
    assert(s.drop_first().drop_first() =~= seq!['M'] + rest);
    assert(s.drop_first().drop_first().drop_first() =~= rest);
    assert((77u32 & 0x7Fu32) as u8 == 77u8) by (bit_vector);
    assert((69u32 & 0x7Fu32) as u8 == 69u8) by (bit_vector);
    assert('M' as u32 == 77u32);
    assert('E' as u32 == 69u32);
    let e0 = encode_utf8(s);
    let e1 = encode_utf8(s.drop_first());
    let e2 = encode_utf8(s.drop_first().drop_first());
    assert(e0 == seq![77u8] + e1);
    assert(e1 == seq![69u8] + e2);
    assert(e2 == seq![77u8] + encode_utf8(rest));
    assert(e0[0] == 77u8);
    assert(e0[1] == e1[0]);
    assert(e0[2] == e1[1]);
    assert(e1[1] == e2[0]);
}

/// A `MEM` message written for a key and a value without `;` is handled,
/// and asks for exactly that key, value and expiration, whatever the rest of
/// its first field and whatever fields follow the expiration.
pub proof fn lemma_mem_message_round_trip(
    first: Seq<char>,
    key: Seq<char>,
    value: Seq<char>,
    exp: u32,
    tail: Seq<char>,
)
    requires
        first.len() >= 3 && first[0] == 'M' && first[1] == 'E' && first[2] == 'M',
        text::free_of(first, ';'),
        text::free_of(key, ';'),
        text::free_of(value, ';'),
        tail.len() == 0 || tail[0] == ';',
    ensures
        starts_with_mem(encode_utf8(mem_message_text(first, key, value, exp, tail))),
        mem_message_well_formed(encode_utf8(mem_message_text(first, key, value, exp, tail))),
        mem_fields(encode_utf8(mem_message_text(first, key, value, exp, tail)))[1] == key,
        mem_fields(encode_utf8(mem_message_text(first, key, value, exp, tail)))[2] == value,
        text::parse_u32_text(mem_fields(encode_utf8(mem_message_text(first, key, value, exp, tail)))[3])
            == Some(exp),
{
    let digits = text::decimal_text(exp as nat);
    let t = mem_message_text(first, key, value, exp, tail);
    assert(t =~= seq!['M', 'E', 'M'] + (first.skip(3) + seq![';'] + key + seq![';'] + value + seq![
        ';',
    ] + digits + tail));
    lemma_encode_mem_prefix(first.skip(3) + seq![';'] + key + seq![';'] + value + seq![';'] + digits
        + tail);
    text::lemma_decimal_text_reads_back(exp as nat);
    assert(text::free_of(digits, ';')) by {
        assert forall|i: int| 0 <= i < digits.len() implies #[trigger] digits[i] != ';' by {
            assert(text::is_digit(digits[i]));
        }
    }
    // The pieces of what follows the value: the expiration first.
    let d = digits + tail;
    let dp = text::split_on(d, ';');
    text::lemma_split_on_plain(digits, ';');
    if tail.len() == 0 {
        assert(d =~= digits);
    } else {
        let t2 = tail.drop_first();
        assert(d =~= digits.push(';') + t2);
        text::lemma_split_on_concat(digits, t2, ';');
    }
    text::lemma_split_on_nonempty(d, ';');
    assert(dp[0] == digits);
    let c = value.push(';') + d;
    text::lemma_split_on_plain(value, ';');
    text::lemma_split_on_concat(value, d, ';');
    let b = key.push(';') + c;
    text::lemma_split_on_plain(key, ';');
    text::lemma_split_on_concat(key, c, ';');
    text::lemma_split_on_plain(first, ';');
    text::lemma_split_on_concat(first, b, ';');
    assert(t =~= first.push(';') + b);
    let pieces = text::split_on(t, ';');
    assert(pieces == seq![first] + (seq![key] + (seq![value] + dp)));
    assert(pieces[1] == key);
    assert(pieces[2] == value);
    assert(pieces[3] == dp[0]);
    encode_utf8_valid_utf8(t);
    encode_utf8_decode_utf8(t);
    assert(text::parse_u32_text(digits) == Some(exp));
}

/// The insertion that a message asks for is determined by the message: two
/// insertions that both answer it agree on key, value and expiration.
pub proof fn lemma_request_determined(a: MemInsert, b: MemInsert, msg: Seq<u8>)
    requires
        is_request_of(a, msg),
        is_request_of(b, msg),
    ensures
        a.key@ == b.key@,
        a.value@ == b.value@,
        a.exp == b.exp,
{
}


/// `check_publish` on a publication and `check_mem` on its payload agree: two
/// answers that both fit a message ask for the same insertion (same key,
/// value and expiration), or are both `NotInsertion`.
pub proof fn lemma_mem_answer_determined(
    msg: Seq<u8>,
    r1: Result<MemInsert, ErrorBrokerMemcached>,
    r2: Result<MemInsert, ErrorBrokerMemcached>,
)
    requires
        mem_answer(msg, r1),
        mem_answer(msg, r2),
    ensures
        match (r1, r2) {
            (Ok(a), Ok(b)) => a.key@ == b.key@ && a.value@ == b.value@ && a.exp == b.exp,
            (Err(ErrorBrokerMemcached::NotInsertion), Err(ErrorBrokerMemcached::NotInsertion)) => true,
            _ => false,
        },
{
}


/// The insertion read from `first;key;value;exp` followed by further fields
/// has exactly that key, value and expiration: the key and the value are
/// the whole second and third fields, whatever other characters (such as
/// `:`) they hold.
pub proof fn lemma_insert_reads_whole_fields(
    first: Seq<char>,
    key: Seq<char>,
    value: Seq<char>,
    exp: u32,
    tail: Seq<char>,
    ins: MemInsert,
)
    requires
        first.len() >= 3 && first[0] == 'M' && first[1] == 'E' && first[2] == 'M',
        text::free_of(first, ';'),
        text::free_of(key, ';'),
        text::free_of(value, ';'),
        tail.len() == 0 || tail[0] == ';',
        is_request_of(
            ins,
            encode_utf8(
                first + seq![';'] + key + seq![';'] + value + seq![';'] + text::decimal_text(
                    exp as nat,
                ) + tail,
            ),
        ),
    ensures
        ins.key@ == key,
        ins.value@ == value,
        ins.exp == exp,
{
    lemma_mem_message_round_trip(first, key, value, exp, tail);
    assert(mem_message_text(first, key, value, exp, tail) == first + seq![';'] + key + seq![';']
        + value + seq![';'] + text::decimal_text(exp as nat) + tail);
}

/// Such a message is handled: `check_mem` gives an insertion for it (not an
/// error), and that insertion has exactly its key, value and expiration.
pub proof fn lemma_mem_message_inserts(
    first: Seq<char>,
    key: Seq<char>,
    value: Seq<char>,
    exp: u32,
    tail: Seq<char>,
    r: Result<MemInsert, ErrorBrokerMemcached>,
)
    requires
        first.len() >= 3 && first[0] == 'M' && first[1] == 'E' && first[2] == 'M',
        text::free_of(first, ';'),
        text::free_of(key, ';'),
        text::free_of(value, ';'),
        tail.len() == 0 || tail[0] == ';',
        mem_answer(
            encode_utf8(
                first + seq![';'] + key + seq![';'] + value + seq![';'] + text::decimal_text(
                    exp as nat,
                ) + tail,
            ),
            r,
        ),
    ensures
        r matches Ok(ins) && ins.key@ == key && ins.value@ == value && ins.exp == exp,
{
    lemma_mem_message_round_trip(first, key, value, exp, tail);
    let m = first + seq![';'] + key + seq![';'] + value + seq![';'] + text::decimal_text(exp as nat)
        + tail;
    assert(mem_message_text(first, key, value, exp, tail) == m);
    let ins = r->Ok_0;
    lemma_insert_reads_whole_fields(first, key, value, exp, tail, ins);
}

/// A stored entry is answered as the whole key, one `:`, and the whole value:
/// the answer begins with the key, has `:` right after it, ends with the
/// value, and is one character longer than key and value together.
pub proof fn lemma_entry_text_parts(key: Seq<char>, value: Seq<char>)
    ensures
        entry_text(key, value).len() == key.len() + 1 + value.len(),
        entry_text(key, value).take(key.len() as int) == key,
        entry_text(key, value)[key.len() as int] == ':',
        entry_text(key, value).skip(key.len() as int + 1) == value,
{
    let t = entry_text(key, value);
    assert(t.take(key.len() as int) =~= key);
    assert(t.skip(key.len() as int + 1) =~= value);
}

/// The options part of the cache's address holds every option: joining one
/// more option adds `&` and that option after what was there.
pub proof fn lemma_joined_push(list: Seq<Seq<char>>, option: Seq<char>)
    requires
        list.len() >= 1,
    ensures
        joined(list.push(option), seq!['&']) == joined(list, seq!['&']) + seq!['&'] + option,
{
    assert(list.push(option).drop_last() =~= list);
}

/// The total length of the pieces of a list.
pub open spec fn total_len(list: Seq<Seq<char>>) -> nat
    decreases list.len(),
{
    if list.len() == 0 {
        0
    } else {
        total_len(list.drop_last()) + list.last().len()
    }
}

proof fn lemma_total_len_prefix(s: Seq<Seq<char>>, m: int)
    requires
        0 <= m < s.len(),
    ensures
        total_len(s.take(m + 1)) == total_len(s.take(m)) + s[m].len(),
        total_len(s.take(m + 1)) <= total_len(s),
    decreases s.len(),
{
    assert(s.take(m + 1).drop_last() =~= s.take(m));
    if m + 1 < s.len() {
        lemma_total_len_prefix(s.drop_last(), m);
        assert(s.drop_last().take(m + 1) =~= s.take(m + 1));
        assert(s.drop_last().take(m) =~= s.take(m));
    } else {
        assert(s.take(m + 1) =~= s);
    }
}

/// Joining `n >= 1` options with `&` gives text as long as the options
/// together plus `n - 1`, in which option `i` stands whole, starting after the
/// options before it and their `&`s; no option is dropped.
pub proof fn lemma_joined_holds_every_option(list: Seq<Seq<char>>, i: int)
    requires
        0 <= i < list.len(),
    ensures
        joined(list, seq!['&']).len() == total_len(list) + list.len() - 1,
        joined(list, seq!['&']).subrange(
            total_len(list.take(i)) + i,
            total_len(list.take(i)) + i + list[i].len(),
        ) == list[i],
        i > 0 ==> joined(list, seq!['&'])[total_len(list.take(i)) + i - 1] == '&',
    decreases list.len(),
{
    let n = list.len();
    let j = joined(list, seq!['&']);
    if n == 1 {
        assert(list.take(0) =~= Seq::<Seq<char>>::empty());
        assert(list.drop_last() =~= Seq::<Seq<char>>::empty());
        assert(j.subrange(0, list[0].len() as int) =~= list[0]);
    } else {
        let p = list.drop_last();
        let jp = joined(p, seq!['&']);
        assert(j == jp + seq!['&'] + list.last());
        if i < n - 1 {
            lemma_joined_holds_every_option(p, i);
            assert(p.take(i) =~= list.take(i));
            assert(p[i] == list[i]);
            let lo = total_len(list.take(i)) + i;
            lemma_total_len_prefix(p, i);
            assert(lo + list[i].len() <= jp.len());
            assert(j.subrange(lo, lo + list[i].len()) =~= jp.subrange(lo, lo + list[i].len()));
            if i > 0 {
                assert(j[lo - 1] == jp[lo - 1]);
            }
        } else {
            lemma_joined_holds_every_option(p, 0);
            assert(list.take(i) =~= p);
            let lo = total_len(p) + i;
            assert(lo == jp.len() + 1);
            assert(j.subrange(lo, lo + list[i].len()) =~= list.last());
            assert(j[lo - 1] == '&');
        }
    }
}


/// A message whose first three bytes are not those of `MEM` never leads to
/// an insertion: it is refused with `NotInsertion`.
pub proof fn lemma_other_messages_refused(msg: Seq<u8>, r: Result<MemInsert, ErrorBrokerMemcached>)
    requires
        msg.len() < 3 || msg[0] != 77u8 || msg[1] != 69u8 || msg[2] != 77u8,
        mem_answer(msg, r),
    ensures
        r matches Err(ErrorBrokerMemcached::NotInsertion),
{
}

/// The cache's address is `memcache://`, the whole ip, `:`, the port in
/// decimal, `?`, then the options joined by `&`.
pub proof fn lemma_memcache_url_parts(ip: Seq<char>, port: u16, options: Seq<Seq<char>>)
    ensures
        memcache_url_text(ip, port, options).take(11) == seq![
            'm', 'e', 'm', 'c', 'a', 'c', 'h', 'e', ':', '/', '/'
        ],
        memcache_url_text(ip, port, options).subrange(11, 11 + ip.len() as int) == ip,
        memcache_url_text(ip, port, options)[11 + ip.len() as int] == ':',
        text::decimal_value(
            memcache_url_text(ip, port, options).subrange(
                12 + ip.len() as int,
                12 + ip.len() as int + text::decimal_text(port as nat).len(),
            ),
        ) == Some(port as nat),
        memcache_url_text(ip, port, options)[12 + ip.len() as int + text::decimal_text(
            port as nat,
        ).len()] == '?',
        memcache_url_text(ip, port, options).skip(
            13 + ip.len() as int + text::decimal_text(port as nat).len(),
        ) == joined(options, seq!['&']),
{
    let d = text::decimal_text(port as nat);
    let u = memcache_url_text(ip, port, options);
    let n = ip.len() as int;
    text::lemma_decimal_text_reads_back(port as nat);
    assert(u.take(11) =~= seq!['m', 'e', 'm', 'c', 'a', 'c', 'h', 'e', ':', '/', '/']);
    assert(u.subrange(11, 11 + n) =~= ip);
    assert(u.subrange(12 + n, 12 + n + d.len()) =~= d);
    assert(u.skip(13 + n + d.len()) =~= joined(options, seq!['&']));
}

} // verus!
