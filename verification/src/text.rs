//! Character-level helpers shared by the message formats: UTF-8 decoding,
//! splitting on a separator, and decimal numerals.
use vstd::prelude::*;
use vstd::utf8::*;

verus! {

/// Appends one character to a `String` (std's `String::push`).
/// Trusted: the new contents are the old contents followed by `c`.
#[verifier::external_body]
fn push_char(s: &mut String, c: char)
    ensures
        final(s)@ == old(s)@.push(c),
{
    s.push(c);
}

/// Decodes bytes as UTF-8 (std's `String::from_utf8`).
/// Trusted: it succeeds exactly on valid UTF-8, and the text is the decoded scalars.
#[verifier::external_body]
fn string_from_utf8(bytes: Vec<u8>) -> (r: Option<String>)
    ensures
        r is Some <==> valid_utf8(bytes@),
        r matches Some(s) ==> s@ == decode_utf8(bytes@),
{
    String::from_utf8(bytes).ok()
}

/// Decodes `bytes` as UTF-8 text, `None` where they are not valid UTF-8.
pub fn decode_text(bytes: &[u8]) -> (r: Option<String>)
    ensures
        r is Some <==> valid_utf8(bytes@),
        r matches Some(s) ==> s@ == decode_utf8(bytes@),
{
    string_from_utf8(vstd::slice::slice_to_vec(bytes))
}

/// Builds a `String` holding exactly the characters of `cs`.
pub fn string_from_chars(cs: &[char]) -> (r: String)
    ensures
        r@ == cs@,
{
    let mut r = String::new();
    let mut i: usize = 0;
    while i < cs.len()
        invariant
            i <= cs@.len(),
            r@ == cs@.take(i as int),
        decreases cs@.len() - i,
    {
        push_char(&mut r, cs[i]);
        proof {
            assert(cs@.take(i as int).push(cs@[i as int]) =~= cs@.take(i + 1));
        }
        i = i + 1;
    }
    proof {
        assert(cs@.take(cs@.len() as int) =~= cs@);
    }
    r
}

/// The characters of `s`, in order.
pub fn chars_of(s: &str) -> (r: Vec<char>)
    ensures
        r@ == s@,
{
    let mut r: Vec<char> = Vec::new();
    for c in it: s.chars()
        invariant
            r@ == it.seq().take(it.index() as int),
    {
        r.push(c);
        proof {
            assert(it.seq().take(it.index() as int).push(c) =~= it.seq().take(it.index() + 1));
        }
    }
    r
}


/// The pieces of `s` between occurrences of `sep`, as `str::split` yields
/// them for a one-character pattern: there is always at least one piece, and
/// `k` separators give `k + 1` pieces (some of them possibly empty).
pub open spec fn split_on(s: Seq<char>, sep: char) -> Seq<Seq<char>>
    decreases s.len(),
{
    if s.len() == 0 {
        seq![Seq::<char>::empty()]
    } else {
        let pieces = split_on(s.drop_last(), sep);
        if s.last() == sep {
            pieces.push(Seq::<char>::empty())
        } else {
            pieces.update(pieces.len() - 1, pieces.last().push(s.last()))
        }
    }
}

/// `split_on` never yields an empty list of pieces.
pub proof fn lemma_split_on_nonempty(s: Seq<char>, sep: char)
    ensures
        split_on(s, sep).len() >= 1,
    decreases s.len(),
{
    if s.len() > 0 {
        lemma_split_on_nonempty(s.drop_last(), sep);
    }
}

/// Splits `s` at every `sep`, giving the pieces in order.
pub fn split_chars(s: &[char], sep: char) -> (r: Vec<Vec<char>>)
    ensures
        r.deep_view() == split_on(s@, sep),
{
    let mut r: Vec<Vec<char>> = Vec::new();
    let mut cur: Vec<char> = Vec::new();
    let mut i: usize = 0;
    proof {
        assert(s@.take(0) =~= Seq::<char>::empty());
    }
    while i < s.len()
        invariant
            i <= s@.len(),
            r.deep_view().push(cur@) == split_on(s@.take(i as int), sep),
        decreases s@.len() - i,
    {
        let c = s[i];
        let ghost before = split_on(s@.take(i as int), sep);
        proof {
            lemma_split_on_nonempty(s@.take(i as int), sep);
            assert(s@.take(i + 1).drop_last() =~= s@.take(i as int));
            assert(s@.take(i + 1).last() == c);
        }
        if c == sep {
            let ghost prev_r = r.deep_view();
            let done = cur;
            proof {
                assert(done.deep_view() =~= done@);
            }
            r.push(done);
            cur = Vec::new();
            proof {
                assert(r.deep_view() =~= prev_r.push(done@));
                assert(r.deep_view() =~= before);
                assert(r.deep_view().push(cur@) =~= before.push(Seq::<char>::empty()));
            }
        } else {
            let ghost prev_r = r.deep_view();
            cur.push(c);
            proof {
                assert(prev_r == before.drop_last());
                assert(r.deep_view().push(cur@) =~= before.update(before.len() - 1, before.last().push(c)));
            }
        }
        i = i + 1;
    }
    proof {
        assert(s@.take(s@.len() as int) =~= s@);
    }
    let ghost prev_r = r.deep_view();
    proof {
        assert(cur.deep_view() =~= cur@);
    }
    r.push(cur);
    proof {
        assert(r.deep_view() =~= prev_r.push(cur@));
    }
    r
}


/// True for the ASCII digits `0`..=`9`.
pub open spec fn is_digit(c: char) -> bool {
    '0' as int <= c as int && c as int <= '9' as int
}

/// The value of an ASCII digit.
pub open spec fn digit_value(c: char) -> nat {
    (c as int - '0' as int) as nat
}

/// True when every character of `s` is an ASCII digit.
pub open spec fn all_digits(s: Seq<char>) -> bool {
    forall|i: int| 0 <= i < s.len() ==> is_digit(#[trigger] s[i])
}

/// The value of a string of digits read in base ten (0 for the empty string).
pub open spec fn digits_value(s: Seq<char>) -> nat
    decreases s.len(),
{
    if s.len() == 0 {
        0
    } else {
        digits_value(s.drop_last()) * 10 + digit_value(s.last())
    }
}

/// `s` without the one leading `+` that an unsigned numeral may carry.
pub open spec fn unsigned_digits(s: Seq<char>) -> Seq<char> {
    if s.len() > 0 && s[0] == '+' {
        s.drop_first()
    } else {
        s
    }
}

/// The number that `s` writes as `str::parse` reads an unsigned integer:
/// an optional `+`, then one or more ASCII digits and nothing else.
pub open spec fn decimal_value(s: Seq<char>) -> Option<nat> {
    let d = unsigned_digits(s);
    if d.len() > 0 && all_digits(d) {
        Some(digits_value(d))
    } else {
        None
    }
}

/// `decimal_value(s)` where it is at most `max`, else `None` (an overflow).
pub open spec fn bounded_decimal(s: Seq<char>, max: nat) -> Option<nat> {
    match decimal_value(s) {
        Some(v) => if v <= max { Some(v) } else { None },
        None => None,
    }
}

/// What `str::parse::<u16>` accepts, and the value it gives.
pub open spec fn parse_u16_text(s: Seq<char>) -> Option<u16> {
    match bounded_decimal(s, u16::MAX as nat) {
        Some(v) => Some(v as u16),
        None => None,
    }
}

/// What `str::parse::<u32>` accepts, and the value it gives.
pub open spec fn parse_u32_text(s: Seq<char>) -> Option<u32> {
    match bounded_decimal(s, u32::MAX as nat) {
        Some(v) => Some(v as u32),
        None => None,
    }
}

/// Adding digits never makes a numeral smaller.
proof fn lemma_digits_value_grows(s: Seq<char>, i: int)
    requires
        0 <= i <= s.len(),
    ensures
        digits_value(s.take(i)) <= digits_value(s),
    decreases s.len(),
{
    if i < s.len() {
        assert(s.drop_last().take(i) =~= s.take(i));
        lemma_digits_value_grows(s.drop_last(), i);
    } else {
        assert(s.take(i) =~= s);
    }
}

/// Reads an unsigned decimal numeral from `s`, as `str::parse` does for an
/// unsigned type whose largest value is `max`.
pub fn parse_decimal(s: &[char], max: u64) -> (r: Option<u64>)
    requires
        max <= u32::MAX,
    ensures
        match r {
            Some(v) => bounded_decimal(s@, max as nat) == Some(v as nat),
            None => bounded_decimal(s@, max as nat) is None,
        },
{
    let ghost d = unsigned_digits(s@);
    let mut start: usize = 0;
    if s.len() > 0 && s[0] == '+' {
        start = 1;
    }
    proof {
        assert(d =~= s@.subrange(start as int, s@.len() as int));
    }
    if start == s.len() {
        return None;
    }
    let mut v: u64 = 0;
    let mut i: usize = start;
    proof {
        assert(d.take(0) =~= Seq::<char>::empty());
    }
    while i < s.len()
        invariant
            start <= i <= s@.len(),
            start < s@.len(),
            d == unsigned_digits(s@),
            d =~= s@.subrange(start as int, s@.len() as int),
            max <= u32::MAX,
            v as nat == digits_value(d.take(i - start)),
            v <= max,
            all_digits(d.take(i - start)),
        decreases s@.len() - i,
    {
        let c = s[i];
        let k: usize = i - start;
        proof {
            assert(d[k as int] == c);
            assert(d.take(k + 1).drop_last() =~= d.take(k as int));
            assert(d.take(k + 1).last() == c);
        }
        if !('0' <= c && c <= '9') {
            proof {
                assert(!is_digit(d[k as int]));
                assert(!all_digits(d));
                assert(decimal_value(s@) is None);
            }
            return None;
        }
        let digit: u64 = (c as u64) - ('0' as u64);
        let next: u64 = v * 10 + digit;
        if next > max {
            proof {
                assert(digits_value(d.take(k + 1)) == v * 10 + digit);
                if all_digits(d) {
                    lemma_digits_value_grows(d, k + 1);
                    assert(digits_value(d) > max);
                }
                assert(bounded_decimal(s@, max as nat) is None);
            }
            return None;
        }
        v = next;
        i = i + 1;
        proof {
            assert forall|j: int| 0 <= j < d.take(i - start).len() implies is_digit(
                #[trigger] d.take(i - start)[j],
            ) by {
                if j < k {
                    assert(d.take(i - start)[j] == d.take(k as int)[j]);
                }
            }
        }
    }
    proof {
        assert(d.take(i - start) =~= d);
    }
    Some(v)
}

/// The digit character for `d` (0..=9).
pub open spec fn digit_char(d: nat) -> char {
    if d == 0 { '0' }
    else if d == 1 { '1' }
    else if d == 2 { '2' }
    else if d == 3 { '3' }
    else if d == 4 { '4' }
    else if d == 5 { '5' }
    else if d == 6 { '6' }
    else if d == 7 { '7' }
    else if d == 8 { '8' }
    else { '9' }
}

/// The shortest decimal numeral for `n`, as `format!("{}", n)` writes it.
pub open spec fn decimal_text(n: nat) -> Seq<char>
    decreases n,
{
    if n < 10 {
        seq![digit_char(n)]
    } else {
        decimal_text(n / 10).push(digit_char(n % 10))
    }
}

fn digit_to_char(d: u64) -> (c: char)
    requires
        d < 10,
    ensures
        c == digit_char(d as nat),
{
    if d == 0 { '0' }
    else if d == 1 { '1' }
    else if d == 2 { '2' }
    else if d == 3 { '3' }
    else if d == 4 { '4' }
    else if d == 5 { '5' }
    else if d == 6 { '6' }
    else if d == 7 { '7' }
    else if d == 8 { '8' }
    else { '9' }
}

/// Appends the decimal numeral of `n` to `out`.
pub fn push_decimal(out: &mut String, n: u64)
    ensures
        final(out)@ == old(out)@ + decimal_text(n as nat),
    decreases n,
{
    if n >= 10 {
        push_decimal(out, n / 10);
    }
    push_char(out, digit_to_char(n % 10));
    proof {
        if n >= 10 {
            assert(old(out)@ + decimal_text(n as nat) =~= old(out)@ + decimal_text((n / 10) as nat) + seq![digit_char((n % 10) as nat)]);
        } else {
            assert(old(out)@ + decimal_text(n as nat) =~= old(out)@.push(digit_char(n as nat)));
        }
    }
}

/// The numeral that `decimal_text` writes is read back as the same number.
pub proof fn lemma_decimal_text_reads_back(n: nat)
    ensures
        decimal_value(decimal_text(n)) == Some(n),
        decimal_text(n).len() > 0,
        all_digits(decimal_text(n)),
    decreases n,
{
    let t = decimal_text(n);
    if n < 10 {
        assert(t.drop_last() =~= Seq::<char>::empty());
        assert(digit_value(digit_char(n)) == n);
    } else {
        lemma_decimal_text_reads_back(n / 10);
        let p = decimal_text(n / 10);
        assert(is_digit(p[0]));
        assert(unsigned_digits(p) == p);
        assert(digits_value(p) == n / 10);
        assert(t.drop_last() =~= p);
        assert(digit_value(digit_char(n % 10)) == n % 10);
        assert(is_digit(digit_char(n % 10)));
        assert forall|i: int| 0 <= i < t.len() implies is_digit(#[trigger] t[i]) by {
            if i < p.len() {
                assert(t[i] == p[i]);
            }
        }
    }
    assert(is_digit(t[0]));
    assert(unsigned_digits(t) == t);
    assert(digits_value(t) == digits_value(t.drop_last()) * 10 + digit_value(t.last()));
    if n < 10 {
        assert(digits_value(t) == n);
    } else {
        assert(digits_value(t) == (n / 10) * 10 + n % 10);
        assert(digits_value(t) == n);
    }
}


/// True when `sep` does not occur in `s`.
pub open spec fn free_of(s: Seq<char>, sep: char) -> bool {
    forall|i: int| 0 <= i < s.len() ==> #[trigger] s[i] != sep
}

/// Appending text without separators only lengthens the last piece.
pub proof fn lemma_split_on_append_plain(u: Seq<char>, t: Seq<char>, sep: char)
    requires
        free_of(t, sep),
    ensures
        split_on(u + t, sep) == split_on(u, sep).update(
            split_on(u, sep).len() - 1,
            split_on(u, sep).last() + t,
        ),
    decreases t.len(),
{
    lemma_split_on_nonempty(u, sep);
    let su = split_on(u, sep);
    if t.len() == 0 {
        assert(u + t =~= u);
        assert(su.last() + t =~= su.last());
        assert(su.update(su.len() - 1, su.last() + t) =~= su);
    } else {
        let t0 = t.drop_last();
        assert(free_of(t0, sep)) by {
            assert forall|i: int| 0 <= i < t0.len() implies #[trigger] t0[i] != sep by {
                assert(t0[i] == t[i]);
            }
        }
        lemma_split_on_append_plain(u, t0, sep);
        assert((u + t).drop_last() =~= u + t0);
        assert((u + t).last() == t.last());
        assert(t.last() != sep);
        let p = split_on(u + t0, sep);
        assert(p.last() == su.last() + t0);
        assert(p.last().push(t.last()) =~= su.last() + t);
        assert(p.update(p.len() - 1, p.last().push(t.last())) =~= su.update(
            su.len() - 1,
            su.last() + t,
        ));
    }
}

/// Text without the separator is one piece.
pub proof fn lemma_split_on_plain(t: Seq<char>, sep: char)
    requires
        free_of(t, sep),
    ensures
        split_on(t, sep) == seq![t],
{
    let e = Seq::<char>::empty();
    lemma_split_on_append_plain(e, t, sep);
    assert(e + t =~= t);
    assert(seq![e].update(0, e + t) =~= seq![t]);
}

/// A separator closes the last piece and opens an empty one.
pub proof fn lemma_split_on_push_sep(u: Seq<char>, sep: char)
    ensures
        split_on(u.push(sep), sep) == split_on(u, sep).push(Seq::<char>::empty()),
{
    assert(u.push(sep).drop_last() =~= u);
}

/// Text that continues after a separator splits into the pieces before it
/// followed by the pieces of what comes after it.
pub proof fn lemma_split_on_concat(u: Seq<char>, w: Seq<char>, sep: char)
    ensures
        split_on(u.push(sep) + w, sep) == split_on(u, sep) + split_on(w, sep),
    decreases w.len(),
{
    let a = split_on(u, sep);
    if w.len() == 0 {
        assert(u.push(sep) + w =~= u.push(sep));
        lemma_split_on_push_sep(u, sep);
        assert(a.push(Seq::<char>::empty()) =~= a + seq![Seq::<char>::empty()]);
    } else {
        let w0 = w.drop_last();
        lemma_split_on_concat(u, w0, sep);
        lemma_split_on_nonempty(w0, sep);
        let b = split_on(w0, sep);
        assert((u.push(sep) + w).drop_last() =~= u.push(sep) + w0);
        assert((u.push(sep) + w).last() == w.last());
        if w.last() == sep {
            assert((a + b).push(Seq::<char>::empty()) =~= a + b.push(Seq::<char>::empty()));
        } else {
            assert((a + b).last() == b.last());
            assert((a + b).update((a + b).len() - 1, b.last().push(w.last())) =~= a + b.update(
                b.len() - 1,
                b.last().push(w.last()),
            ));
        }
    }
}

/// Copies `cs[from..]`.
pub fn chars_from(cs: &[char], from: usize) -> (r: Vec<char>)
    requires
        from <= cs@.len(),
    ensures
        r@ == cs@.skip(from as int),
{
    let mut r: Vec<char> = Vec::new();
    let mut i: usize = from;
    while i < cs.len()
        invariant
            from <= i <= cs@.len(),
            r@ == cs@.subrange(from as int, i as int),
        decreases cs@.len() - i,
    {
        r.push(cs[i]);
        proof {
            assert(cs@.subrange(from as int, i + 1) =~= cs@.subrange(from as int, i as int).push(
                cs@[i as int],
            ));
        }
        i = i + 1;
    }
    proof {
        assert(cs@.subrange(from as int, cs@.len() as int) =~= cs@.skip(from as int));
    }
    r
}

/// Appends the text of `s` to `out`.
pub fn push_text(out: &mut String, s: &str)
    ensures
        final(out)@ == old(out)@ + s@,
{
    out.append(s);
}

} // verus!
