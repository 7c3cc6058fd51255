//! Session tokens: a 64-bit id written as sixteen lowercase hexadecimal
//! digits, and the reading of such text back into an id.
use vstd::prelude::*;
use vstd::std_specs::iter::IteratorSpec;

verus! {

/// The sixteen hexadecimal digits, lowercase.
pub open spec fn hex_alphabet() -> Seq<char> {
    seq!['0', '1', '2', '3', '4', '5', '6', '7', '8', '9', 'a', 'b', 'c', 'd', 'e', 'f']
}

/// The value of a hexadecimal digit of either case, or -1 for any other character.
pub open spec fn hex_value(c: char) -> int {
    if '0' <= c && c <= '9' {
        c as int - '0' as int
    } else if 'a' <= c && c <= 'f' {
        c as int - 'a' as int + 10
    } else if 'A' <= c && c <= 'F' {
        c as int - 'A' as int + 10
    } else {
        -1
    }
}

/// Whether every character of `s` is a hexadecimal digit.
pub open spec fn all_hex(s: Seq<char>) -> bool {
    forall|i: int| 0 <= i < s.len() ==> hex_value(#[trigger] s[i]) >= 0
}

/// The number that the hexadecimal digits `s` spell, most significant first.
pub open spec fn digits_value(s: Seq<char>) -> nat
    decreases s.len(),
{
    if s.len() == 0 {
        0
    } else {
        digits_value(s.drop_last()) * 16 + hex_value(s.last()) as nat
    }
}

/// Reading text as an unsigned 64-bit hexadecimal number: an optional `+`,
/// then at least one digit of either case, with a value that fits.
pub open spec fn parse_hex_u64(s: Seq<char>) -> Option<u64> {
    let d = if s.len() > 0 && s[0] == '+' { s.drop_first() } else { s };
    if d.len() > 0 && all_hex(d) && digits_value(d) <= u64::MAX {
        Some(digits_value(d) as u64)
    } else {
        None
    }
}

/// The last `k` hexadecimal digits of `n`, lowercase, most significant first.
pub open spec fn hex_digits(n: nat, k: nat) -> Seq<char>
    decreases k,
{
    if k == 0 {
        Seq::empty()
    } else {
        hex_digits(n / 16, (k - 1) as nat).push(hex_alphabet()[(n % 16) as int])
    }
}

/// The token that stands for a session id: sixteen lowercase hexadecimal digits.
pub open spec fn token_of(id: u64) -> Seq<char> {
    hex_digits(id as nat, 16)
}

/// Sixteen to the power `k`.
pub open spec fn pow16(k: nat) -> nat
    decreases k,
{
    if k == 0 {
        1
    } else {
        16 * pow16((k - 1) as nat)
    }
}

proof fn lemma_alphabet_values(d: int)
    requires
        0 <= d < 16,
    ensures
        hex_value(hex_alphabet()[d]) == d,
{
}

proof fn lemma_hex_digits_value(n: nat, k: nat)
    requires
        n < pow16(k),
    ensures
        hex_digits(n, k).len() == k,
        all_hex(hex_digits(n, k)),
        digits_value(hex_digits(n, k)) == n,
    decreases k,
{
    if k > 0 {
        let p = pow16((k - 1) as nat);
        assert(n / 16 < p);
        lemma_hex_digits_value(n / 16, (k - 1) as nat);
        lemma_alphabet_values((n % 16) as int);
        let s = hex_digits(n, k);
        assert(s.drop_last() =~= hex_digits(n / 16, (k - 1) as nat));
        assert forall|i: int| 0 <= i < s.len() implies hex_value(#[trigger] s[i]) >= 0 by {
            if i < s.len() - 1 {
                assert(s[i] == hex_digits(n / 16, (k - 1) as nat)[i]);
            }
        }
    }
}

/// Reading a session's token gives back its id.
pub proof fn lemma_token_round_trip(id: u64)
    ensures
        token_of(id).len() == 16,
        parse_hex_u64(token_of(id)) == Some(id),
{
    reveal_with_fuel(pow16, 17);
    assert(pow16(16) == 18446744073709551616);
    lemma_hex_digits_value(id as nat, 16);
    let t = token_of(id);
    lemma_alphabet_values(((id as nat) / pow16(15)) as int % 16);
    assert(t[0] != '+') by {
        let s = hex_digits(id as nat, 16);
        assert(hex_value(s[0]) >= 0);
    }
}

fn push_hex_digits(n: u64, k: usize, out: &mut String)
    requires
        k <= 16,
    ensures
        final(out)@ == old(out)@ + hex_digits(n as nat, k as nat),
    decreases k,
{
    if k > 0 {
        push_hex_digits(n / 16, k - 1, out);
        let table = "0123456789abcdef";
        proof {
            reveal_strlit("0123456789abcdef");
            assert(table@ =~= hex_alphabet());
        }
        let d = (n % 16) as usize;
        let piece = table.substring_char(d, d + 1);
        out.append(piece);
        assert(piece@ =~= seq![hex_alphabet()[d as int]]);
    }
}

/// The token for a session id: sixteen lowercase hexadecimal digits.
pub fn format_token(id: u64) -> (r: String)
    ensures
        r@ == token_of(id),
{
    let mut out = String::new();
    push_hex_digits(id, 16, &mut out);
    assert(out@ =~= token_of(id));
    out
}

fn hex_digit_of(c: char) -> (r: Option<u64>)
    ensures
        hex_value(c) >= 0 ==> r == Some(hex_value(c) as u64),
        hex_value(c) < 0 ==> r is None,
{
    if '0' <= c && c <= '9' {
        Some((c as u32 - '0' as u32) as u64)
    } else if 'a' <= c && c <= 'f' {
        Some((c as u32 - 'a' as u32 + 10) as u64)
    } else if 'A' <= c && c <= 'F' {
        Some((c as u32 - 'A' as u32 + 10) as u64)
    } else {
        None
    }
}

proof fn lemma_digits_value_grows(s: Seq<char>, k: int)
    requires
        0 <= k <= s.len(),
        all_hex(s),
    ensures
        digits_value(s.subrange(0, k)) <= digits_value(s),
    decreases s.len() - k,
{
    if k < s.len() {
        lemma_digits_value_grows(s, k + 1);
        let t = s.subrange(0, k + 1);
        assert(t.drop_last() =~= s.subrange(0, k));
        assert(hex_value(s[k]) >= 0);
    } else {
        assert(s.subrange(0, k) =~= s);
    }
}

/// Reads text as an unsigned 64-bit hexadecimal number.
pub fn parse_hex(s: &str) -> (r: Option<u64>)
    ensures
        r == parse_hex_u64(s@),
{
    broadcast use vstd::string::axiom_spec_iter, vstd::string::next_postcondition;

    let n = s.unicode_len();
    let mut it = s.chars();
    assert(it.remaining() == s@);
    let mut start: usize = 0;
    if n > 0 && s.get_char(0) == '+' {
        start = 1;
        let _ = it.next();
    }
    let ghost d = if s@.len() > 0 && s@[0] == '+' { s@.drop_first() } else { s@ };
    assert(d =~= s@.subrange(start as int, n as int));
    assert(it.remaining() =~= s@.subrange(start as int, n as int));
    if start >= n {
        return None;
    }
    let mut acc: u64 = 0;
    let mut i: usize = start;
    while i < n
        invariant
            n == s@.len(),
            start <= i <= n,
            it.remaining() == s@.subrange(i as int, n as int),
            d == (if s@.len() > 0 && s@[0] == '+' { s@.drop_first() } else { s@ }),
            d =~= s@.subrange(start as int, n as int),
            all_hex(s@.subrange(start as int, i as int)),
            acc as nat == digits_value(s@.subrange(start as int, i as int)),
        decreases n - i,
    {
        let ghost rem = it.remaining();
        let c = match it.next() {
            Some(c) => c,
            None => {
                assert(rem.len() > 0);
                return None;
            },
        };
        assert(c == s@[i as int]);
        assert(it.remaining() =~= s@.subrange(i + 1, n as int));
        let v = hex_digit_of(c);
        let ghost pre = s@.subrange(start as int, i as int);
        let ghost next = s@.subrange(start as int, i + 1);
        assert(next.drop_last() =~= pre);
        assert(next.last() == c);
        match v {
            None => {
                assert(!all_hex(d)) by {
                    assert(d[i - start] == c);
                }
                return None;
            },
            Some(x) => {
                if acc > (u64::MAX - x) / 16 {
                    proof {
                        assert(digits_value(next) > u64::MAX);
                        if all_hex(d) {
                            assert(next =~= d.subrange(0, i + 1 - start));
                            lemma_digits_value_grows(d, i + 1 - start);
                        }
                    }
                    return None;
                }
                acc = acc * 16 + x;
                assert(all_hex(next)) by {
                    assert forall|m: int| 0 <= m < next.len() implies hex_value(#[trigger] next[m]) >= 0 by {
                        if m < pre.len() {
                            assert(next[m] == pre[m]);
                        }
                    }
                }
            },
        }
        i = i + 1;
    }
    Some(acc)
}

} // verus!
