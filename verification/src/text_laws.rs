//! What numbers and bytes look like in text, and what trimming takes away.

use vstd::prelude::*;

use crate::text;

verus! {

/// The number that a lowercase hexadecimal digit stands for; 16 where it is none.
pub open spec fn value_of(c: char) -> int {
    if '0' <= c <= '9' {
        c as int - '0' as int
    } else if 'a' <= c <= 'f' {
        10 + (c as int - 'a' as int)
    } else {
        16
    }
}

/// The number that digits spell in `base`, the first being the most significant.
pub open spec fn number(s: Seq<char>, base: int) -> int
    decreases s.len(),
{
    if s.len() == 0 {
        0
    } else {
        base * number(s.drop_last(), base) + value_of(s.last())
    }
}

proof fn lemma_digit(d: nat)
    requires
        d < 16,
    ensures
        value_of(text::digit(d)) == d,
        text::digit(d) == '0' <==> d == 0,
{
    reveal_strlit("0123456789abcdef");
}

/// A number is written with digits of its base, without needless zeros in front, and
/// reads back as itself.
pub proof fn law_numbers_read_back(n: nat, base: nat)
    requires
        2 <= base <= 16,
    ensures
        number(text::digits(n, base), base as int) == n,
        text::digits(n, base).len() > 0,
        text::digits(n, base).len() > 1 ==> text::digits(n, base)[0] != '0',
        forall|i: int|
            0 <= i < text::digits(n, base).len() ==> 0 <= value_of(
                #[trigger] text::digits(n, base)[i],
            ) < base,
    decreases n,
{
    let s = text::digits(n, base);
    if n < base {
        lemma_digit(n);
        assert(s =~= seq![text::digit(n)]);
        assert(s.drop_last() =~= Seq::empty());
        assert(number(s.drop_last(), base as int) == 0);
        assert(base * 0 == 0);
    } else {
        vstd::arithmetic::div_mod::lemma_div_decreases(n as int, base as int);
        vstd::arithmetic::div_mod::lemma_fundamental_div_mod(n as int, base as int);
        law_numbers_read_back(n / base, base);
        let front = text::digits(n / base, base);
        lemma_digit(n % base);
        assert(s == front.push(text::digit(n % base)));
        assert(s.drop_last() =~= front);
        if front.len() == 1 {
            assert(n / base > 0) by (nonlinear_arith)
                requires
                    n >= base,
                    base > 0,
            ;
            assert(front.drop_last() =~= Seq::empty());
            assert(number(front, base as int) == value_of(front[0])) by {
                assert(number(front.drop_last(), base as int) == 0);
                assert(base * 0 == 0);
            }
            assert(front[0] != '0');
        }
        assert(s[0] == front[0]);
    }
}

/// Numbers are told in base ten, addresses in base sixteen behind `0x`.
pub proof fn law_bases_of_numbers(n: nat)
    ensures
        number(text::decimal(n), 10) == n,
        text::hex(n).len() > 2,
        text::hex(n)[0] == '0' && text::hex(n)[1] == 'x',
        number(text::hex(n).skip(2), 16) == n,
{
    law_numbers_read_back(n, 10);
    law_numbers_read_back(n, 16);
    reveal_strlit("0x");
    assert(text::hex(n).skip(2) =~= text::digits(n, 16));
}

/// Two digits from `at` on spell a byte, the high half first.
pub open spec fn spells(s: Seq<char>, at: int, b: u8) -> bool {
    &&& value_of(s[at]) < 16
    &&& value_of(s[at + 1]) < 16
    &&& b == 16 * value_of(s[at]) + value_of(s[at + 1])
}

/// Bytes are written with two digits each, in their order, the high half first.
pub proof fn law_bytes_read_back(bytes: Seq<u8>)
    ensures
        text::hex_bytes(bytes).len() == 2 * bytes.len(),
        forall|i: int|
            0 <= i < bytes.len() ==> spells(text::hex_bytes(bytes), 2 * i, #[trigger] bytes[i]),
    decreases bytes.len(),
{
    if bytes.len() > 0 {
        let front = bytes.drop_last();
        law_bytes_read_back(front);
        lemma_digit((bytes.last() / 16) as nat);
        lemma_digit((bytes.last() % 16) as nat);
        assert forall|i: int| 0 <= i < bytes.len() implies spells(
            text::hex_bytes(bytes),
            2 * i,
            #[trigger] bytes[i],
        ) by {
            if i < front.len() {
                assert(spells(text::hex_bytes(front), 2 * i, front[i]));
                assert(text::hex_bytes(bytes)[2 * i] == text::hex_bytes(front)[2 * i]);
                assert(text::hex_bytes(bytes)[2 * i + 1] == text::hex_bytes(front)[2 * i + 1]);
            }
        }
    }
}

proof fn lemma_trimmed_end(s: Seq<char>)
    ensures
        exists|n: int|
            0 <= n <= s.len() && #[trigger] s.take(n) == text::trimmed_end(s) && (forall|k: int|
                n <= k < s.len() ==> text::is_space(#[trigger] s[k])) && (n > 0
                ==> !text::is_space(s[n - 1])),
    decreases s.len(),
{
    if s.len() > 0 && text::is_space(s.last()) {
        lemma_trimmed_end(s.drop_last());
        let d = s.drop_last();
        let n = choose|n: int|
            0 <= n <= d.len() && #[trigger] d.take(n) == text::trimmed_end(d) && (forall|k: int|
                n <= k < d.len() ==> text::is_space(#[trigger] d[k])) && (n > 0
                ==> !text::is_space(d[n - 1]));
        assert(s.take(n) =~= d.take(n));
        assert forall|k: int| n <= k < s.len() implies text::is_space(#[trigger] s[k]) by {
            if k < d.len() {
                assert(d[k] == s[k]);
            }
        }
    } else {
        assert(s.take(s.len() as int) =~= s);
    }
}

proof fn lemma_trimmed_start(s: Seq<char>)
    ensures
        exists|n: int|
            0 <= n <= s.len() && #[trigger] s.skip(n) == text::trimmed_start(s) && (forall|k: int|
                0 <= k < n ==> text::is_space(#[trigger] s[k])) && (n < s.len()
                ==> !text::is_space(s[n])),
    decreases s.len(),
{
    if s.len() > 0 && text::is_space(s[0]) {
        lemma_trimmed_start(s.drop_first());
        let d = s.drop_first();
        let n = choose|n: int|
            0 <= n <= d.len() && #[trigger] d.skip(n) == text::trimmed_start(d) && (forall|k: int|
                0 <= k < n ==> text::is_space(#[trigger] d[k])) && (n < d.len()
                ==> !text::is_space(d[n]));
        assert(s.skip(n + 1) =~= d.skip(n));
        assert forall|k: int| 0 <= k < n + 1 implies text::is_space(#[trigger] s[k]) by {
            if k > 0 {
                assert(d[k - 1] == s[k]);
            }
        }
    } else {
        assert(s.skip(0) =~= s);
    }
}

/// Trimming takes white space off both ends, all that is there, and nothing else.
pub proof fn law_trimming_takes_the_ends(s: Seq<char>)
    ensures
        exists|a: int, b: int|
            0 <= a <= b <= s.len() && #[trigger] s.subrange(a, b) == text::trimmed(s) && (forall|
                k: int,
            |
                0 <= k < s.len() && (k < a || b <= k) ==> text::is_space(#[trigger] s[k])) && (a < b
                ==> !text::is_space(s[a]) && !text::is_space(s[b - 1])),
{
    lemma_trimmed_start(s);
    let a = choose|n: int|
        0 <= n <= s.len() && #[trigger] s.skip(n) == text::trimmed_start(s) && (forall|k: int|
            0 <= k < n ==> text::is_space(#[trigger] s[k])) && (n < s.len() ==> !text::is_space(
            s[n],
        ));
    let m = s.skip(a);
    lemma_trimmed_end(m);
    let n = choose|n: int|
        0 <= n <= m.len() && #[trigger] m.take(n) == text::trimmed_end(m) && (forall|k: int|
            n <= k < m.len() ==> text::is_space(#[trigger] m[k])) && (n > 0 ==> !text::is_space(
            m[n - 1],
        ));
    assert(s.subrange(a, a + n) =~= m.take(n));
    assert forall|k: int| 0 <= k < s.len() && (k < a || a + n <= k) implies text::is_space(
        #[trigger] s[k],
    ) by {
        if k >= a {
            assert(m[k - a] == s[k]);
        }
    }
    if n > 0 {
        assert(m[n - 1] == s[a + n - 1]);
    }
}

} // verus!
