//! Twenty-byte account addresses: their hex text form, as the node reads and
//! writes it, and their byte order.
use vstd::prelude::*;

verus! {

/// True for the characters that the address reader skips: space, `\r`, `\n`, `\t`.
pub open spec fn is_hex_whitespace(c: char) -> bool {
    c == ' ' || c == '\r' || c == '\n' || c == '\t'
}

/// True for `0`..=`9`, `a`..=`f` and `A`..=`F`.
pub open spec fn is_hex_digit(c: char) -> bool {
    ||| '0' as int <= c as int <= '9' as int
    ||| 'a' as int <= c as int <= 'f' as int
    ||| 'A' as int <= c as int <= 'F' as int
}

/// The value of a hex digit.
pub open spec fn hex_value(c: char) -> nat {
    if '0' as int <= c as int <= '9' as int {
        (c as int - '0' as int) as nat
    } else if 'a' as int <= c as int <= 'f' as int {
        (c as int - 'a' as int + 10) as nat
    } else {
        (c as int - 'A' as int + 10) as nat
    }
}

/// `s` without one leading `0x`.
pub open spec fn strip_0x(s: Seq<char>) -> Seq<char> {
    if s.len() >= 2 && s[0] == '0' && s[1] == 'x' {
        s.skip(2)
    } else {
        s
    }
}

/// `s` without the whitespace that the address reader skips.
pub open spec fn drop_hex_whitespace(s: Seq<char>) -> Seq<char>
    decreases s.len(),
{
    if s.len() == 0 {
        s
    } else if is_hex_whitespace(s.last()) {
        drop_hex_whitespace(s.drop_last())
    } else {
        drop_hex_whitespace(s.drop_last()).push(s.last())
    }
}

/// The address that `s` writes: after an optional `0x` and with the skipped
/// whitespace taken out, exactly forty hex digits, two per byte, most
/// significant byte first. `None` for any other text.
pub open spec fn address_from_text(s: Seq<char>) -> Option<Seq<u8>> {
    let t = drop_hex_whitespace(strip_0x(s));
    if t.len() == 40 && forall|i: int| 0 <= i < 40 ==> is_hex_digit(#[trigger] t[i]) {
        Some(Seq::new(20, |i: int| (hex_value(t[2 * i]) * 16 + hex_value(t[2 * i + 1])) as u8))
    } else {
        None
    }
}

/// The lower-case hex digit for `n` (0..=15).
pub open spec fn nibble_char(n: nat) -> char {
    if n == 0 { '0' }
    else if n == 1 { '1' }
    else if n == 2 { '2' }
    else if n == 3 { '3' }
    else if n == 4 { '4' }
    else if n == 5 { '5' }
    else if n == 6 { '6' }
    else if n == 7 { '7' }
    else if n == 8 { '8' }
    else if n == 9 { '9' }
    else if n == 10 { 'a' }
    else if n == 11 { 'b' }
    else if n == 12 { 'c' }
    else if n == 13 { 'd' }
    else if n == 14 { 'e' }
    else { 'f' }
}

/// Two lower-case hex digits per byte, high half first.
pub open spec fn lower_hex(a: Seq<u8>) -> Seq<char> {
    Seq::new(
        2 * a.len(),
        |k: int|
            nibble_char(
                if k % 2 == 0 {
                    (a[k / 2] / 16) as nat
                } else {
                    (a[k / 2] % 16) as nat
                },
            ),
    )
}

/// The text form of an address: `0x` and its lower-case hex digits.
pub open spec fn address_text(a: Seq<u8>) -> Seq<char> {
    seq!['0', 'x'] + lower_hex(a)
}

/// Reads an address from its hex text (`primitive_types::H160` as `str::parse`
/// reads it).
/// Trusted: the result is `address_from_text` of the text. The source strips
/// one `0x`, skips space, `\r`, `\n` and `\t`, and wants exactly forty hex
/// digits.
#[verifier::external_body]
fn h160_from_str(s: &str) -> (r: Option<[u8; 20]>)
    ensures
        r is Some <==> address_from_text(s@) is Some,
        r matches Some(a) ==> address_from_text(s@) == Some(a@),
{
    match s.parse::<primitive_types::H160>() {
        Ok(h) => Some(h.0),
        Err(_) => None,
    }
}

/// Writes an address as `format!("{:?}", H160)` does.
/// Trusted: the text is `0x` followed by two lower-case hex digits per byte,
/// which is what `H160`'s `Debug` (through `{:#x}`) writes.
#[verifier::external_body]
fn h160_debug(a: &[u8; 20]) -> (s: String)
    ensures
        s@ == address_text(a@),
{
    format!("{:?}", primitive_types::H160(*a))
}

/// Reads an address from text; `None` where the text is not an address.
pub fn parse_address(s: &str) -> (r: Option<[u8; 20]>)
    ensures
        r is Some <==> address_from_text(s@) is Some,
        r matches Some(a) ==> address_from_text(s@) == Some(a@),
{
    h160_from_str(s)
}

/// The text that announces an address (its debug form, `0x` and forty
/// lower-case hex digits).
pub fn address_payload(a: &[u8; 20]) -> (s: String)
    ensures
        s@ == address_text(a@),
{
    h160_debug(a)
}

/// The all-zero address.
pub fn zero_address() -> (a: [u8; 20])
    ensures
        forall|i: int| 0 <= i < 20 ==> #[trigger] a@[i] == 0,
{
    let a: [u8; 20] = [0u8; 20];
    a
}

/// True when every byte of the address is zero (no contract there yet).
pub fn is_zero_address(a: &[u8; 20]) -> (r: bool)
    ensures
        r <==> forall|i: int| 0 <= i < 20 ==> #[trigger] a@[i] == 0,
{
    let mut i: usize = 0;
    while i < 20
        invariant
            i <= 20,
            forall|j: int| 0 <= j < i ==> #[trigger] a@[j] == 0,
        decreases 20 - i,
    {
        if a[i] != 0 {
            return false;
        }
        i = i + 1;
    }
    true
}

/// Byte-wise (big-endian) order on byte strings: the first differing byte decides,
/// and a proper prefix comes first.
pub open spec fn bytes_less(a: Seq<u8>, b: Seq<u8>) -> bool
    decreases a.len(),
{
    if a.len() == 0 || b.len() == 0 {
        a.len() < b.len()
    } else if a[0] != b[0] {
        a[0] < b[0]
    } else {
        bytes_less(a.drop_first(), b.drop_first())
    }
}

/// How one address stands to another.
#[derive(PartialEq, Eq, Structural, Debug, Clone, Copy)]
pub enum AddressOrder {
    Less,
    Equal,
    Greater,
}

/// Orders two addresses as `H160`'s `Ord` does (byte-wise, first byte most
/// significant).
pub fn compare_addresses(a: &[u8; 20], b: &[u8; 20]) -> (r: AddressOrder)
    ensures
        (r == AddressOrder::Equal) <==> a@ == b@,
        (r == AddressOrder::Less) <==> bytes_less(a@, b@),
        (r == AddressOrder::Greater) <==> bytes_less(b@, a@),
{
    let mut i: usize = 0;
    proof {
        assert(a@.skip(0) =~= a@);
        assert(b@.skip(0) =~= b@);
    }
    while i < 20
        invariant
            i <= 20,
            a@.len() == 20,
            b@.len() == 20,
            a@.take(i as int) =~= b@.take(i as int),
            bytes_less(a@, b@) == bytes_less(a@.skip(i as int), b@.skip(i as int)),
            bytes_less(b@, a@) == bytes_less(b@.skip(i as int), a@.skip(i as int)),
        decreases 20 - i,
    {
        proof {
            assert(a@.skip(i as int)[0] == a@[i as int]);
            assert(b@.skip(i as int)[0] == b@[i as int]);
        }
        if a[i] < b[i] {
            proof {
                assert(a@[i as int] != b@[i as int]);
            }
            return AddressOrder::Less;
        }
        if a[i] > b[i] {
            proof {
                assert(a@[i as int] != b@[i as int]);
            }
            return AddressOrder::Greater;
        }
        proof {
            assert(a@.skip(i as int).drop_first() =~= a@.skip(i + 1));
            assert(b@.skip(i as int).drop_first() =~= b@.skip(i + 1));
            assert(a@.take(i + 1) =~= a@.take(i as int).push(a@[i as int]));
            assert(b@.take(i + 1) =~= b@.take(i as int).push(b@[i as int]));
        }
        i = i + 1;
    }
    proof {
        assert(a@ =~= a@.take(20));
        assert(b@ =~= b@.take(20));
        assert(a@.skip(20).len() == 0);
    }
    AddressOrder::Equal
}

proof fn lemma_no_whitespace_kept(s: Seq<char>)
    requires
        forall|i: int| 0 <= i < s.len() ==> !is_hex_whitespace(#[trigger] s[i]),
    ensures
        drop_hex_whitespace(s) == s,
    decreases s.len(),
{
    if s.len() > 0 {
        let p = s.drop_last();
        assert forall|i: int| 0 <= i < p.len() implies !is_hex_whitespace(#[trigger] p[i]) by {
            assert(p[i] == s[i]);
        }
        lemma_no_whitespace_kept(p);
        assert(!is_hex_whitespace(s[s.len() - 1]));
        assert(p.push(s.last()) =~= s);
    }
}

proof fn lemma_nibble_char(n: nat)
    requires
        n < 16,
    ensures
        is_hex_digit(nibble_char(n)),
        !is_hex_whitespace(nibble_char(n)),
        hex_value(nibble_char(n)) == n,
{
}

/// Reading back the text form of an address gives the same address: what a
/// node announces with `address_payload` is what `parse_address` returns.
pub proof fn lemma_address_text_round_trip(a: Seq<u8>)
    requires
        a.len() == 20,
    ensures
        address_from_text(address_text(a)) == Some(a),
{
    let s = address_text(a);
    let h = lower_hex(a);
    assert(s[0] == '0' && s[1] == 'x');
    assert(s.skip(2) =~= h);
    assert(strip_0x(s) == h);
    assert forall|k: int| 0 <= k < h.len() implies is_hex_digit(#[trigger] h[k]) && !is_hex_whitespace(h[k]) by {
        if k % 2 == 0 {
            lemma_nibble_char((a[k / 2] / 16) as nat);
        } else {
            lemma_nibble_char((a[k / 2] % 16) as nat);
        }
    }
    lemma_no_whitespace_kept(h);
    let t = drop_hex_whitespace(strip_0x(s));
    assert(t == h);
    assert(t.len() == 40);
    let r = Seq::new(20, |i: int| (hex_value(t[2 * i]) * 16 + hex_value(t[2 * i + 1])) as u8);
    assert forall|i: int| 0 <= i < 20 implies #[trigger] r[i] == a[i] by {
        assert((2 * i) % 2 == 0 && (2 * i) / 2 == i);
        assert((2 * i + 1) % 2 == 1 && (2 * i + 1) / 2 == i);
        lemma_nibble_char((a[i] / 16) as nat);
        lemma_nibble_char((a[i] % 16) as nat);
        assert(t[2 * i] == nibble_char((a[i] / 16) as nat));
        assert(t[2 * i + 1] == nibble_char((a[i] % 16) as nat));
        assert((a[i] / 16) * 16 + a[i] % 16 == a[i]);
    }
    assert(r =~= a);
}


/// Addresses are ordered by their bytes read as unsigned numbers, the first
/// byte most significant: when `a` and `b` agree before index `k` and
/// `a[k] < b[k]`, `a` comes before `b` and not after it.
pub proof fn lemma_bytes_less_first_difference(a: Seq<u8>, b: Seq<u8>, k: int)
    requires
        a.len() == b.len(),
        0 <= k < a.len(),
        a.take(k) == b.take(k),
        a[k] < b[k],
    ensures
        bytes_less(a, b),
        !bytes_less(b, a),
    decreases k,
{
    if k > 0 {
        assert(a[0] == a.take(k)[0]);
        assert(b[0] == b.take(k)[0]);
        let a1 = a.drop_first();
        let b1 = b.drop_first();
        assert(a1.take(k - 1) =~= a.take(k).drop_first());
        assert(b1.take(k - 1) =~= b.take(k).drop_first());
        assert(a1[k - 1] == a[k]);
        assert(b1[k - 1] == b[k]);
        lemma_bytes_less_first_difference(a1, b1, k - 1);
    }
}

/// Of two addresses, at most one comes before the other.
pub proof fn lemma_bytes_less_asymmetric(a: Seq<u8>, b: Seq<u8>)
    requires
        a.len() == b.len(),
    ensures
        !(bytes_less(a, b) && bytes_less(b, a)),
    decreases a.len(),
{
    if a.len() > 0 && a[0] == b[0] {
        lemma_bytes_less_asymmetric(a.drop_first(), b.drop_first());
    }
}

/// Equal addresses come before neither one another.
pub proof fn lemma_bytes_less_irreflexive(a: Seq<u8>)
    ensures
        !bytes_less(a, a),
    decreases a.len(),
{
    if a.len() > 0 {
        lemma_bytes_less_irreflexive(a.drop_first());
    }
}


/// The text form of an address is `0x` and two lower-case hex digits per
/// byte, high half first: 42 characters, where the digits at `2 + 2i` and
/// `3 + 2i` give byte `i` back.
pub proof fn lemma_address_text_digits(a: Seq<u8>, i: int)
    requires
        0 <= i < a.len(),
    ensures
        address_text(a).len() == 2 + 2 * a.len(),
        address_text(a)[0] == '0' && address_text(a)[1] == 'x',
        '0' as int <= address_text(a)[2 + 2 * i] as int <= '9' as int || 'a' as int
            <= address_text(a)[2 + 2 * i] as int <= 'f' as int,
        '0' as int <= address_text(a)[3 + 2 * i] as int <= '9' as int || 'a' as int
            <= address_text(a)[3 + 2 * i] as int <= 'f' as int,
        hex_value(address_text(a)[2 + 2 * i]) * 16 + hex_value(address_text(a)[3 + 2 * i]) == a[i],
{
    let t = address_text(a);
    assert((2 * i) % 2 == 0 && (2 * i) / 2 == i);
    assert((2 * i + 1) % 2 == 1 && (2 * i + 1) / 2 == i);
    assert(t[2 + 2 * i] == lower_hex(a)[2 * i]);
    assert(t[3 + 2 * i] == lower_hex(a)[2 * i + 1]);
    lemma_nibble_char((a[i] / 16) as nat);
    lemma_nibble_char((a[i] % 16) as nat);
    assert((a[i] / 16) * 16 + a[i] % 16 == a[i]);
}

} // verus!
