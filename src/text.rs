//! Byte-level scanning shared by the table and link parsers: splitting text
//! into lines and into blank-separated fields, and reading unsigned numbers.

use vstd::prelude::*;

verus! {

/// A byte that separates fields within a line.
pub open spec fn is_blank(c: u8) -> bool {
    c == 0x20u8 || c == 0x09u8 || c == 0x0du8
}

/// Splitting state machine for fields: `cur` is the field being read, `acc`
/// the fields completed so far. Runs of blanks separate fields; no field is
/// empty.
pub open spec fn fields_from(s: Seq<u8>, i: int, cur: Seq<u8>, acc: Seq<Seq<u8>>) -> Seq<Seq<u8>>
    decreases s.len() - i,
{
    if i >= s.len() {
        if cur.len() > 0 { acc.push(cur) } else { acc }
    } else if is_blank(s[i]) {
        fields_from(s, i + 1, Seq::empty(), if cur.len() > 0 { acc.push(cur) } else { acc })
    } else {
        fields_from(s, i + 1, cur.push(s[i]), acc)
    }
}

/// The blank-separated fields of `s`, in order.
pub open spec fn fields(s: Seq<u8>) -> Seq<Seq<u8>> {
    fields_from(s, 0, Seq::empty(), Seq::empty())
}

/// Splitting state machine for lines: each newline ends a line (possibly an
/// empty one); text after the last newline forms a final line if non-empty.
pub open spec fn lines_from(s: Seq<u8>, i: int, cur: Seq<u8>, acc: Seq<Seq<u8>>) -> Seq<Seq<u8>>
    decreases s.len() - i,
{
    if i >= s.len() {
        if cur.len() > 0 { acc.push(cur) } else { acc }
    } else if s[i] == 0x0au8 {
        lines_from(s, i + 1, Seq::empty(), acc.push(cur))
    } else {
        lines_from(s, i + 1, cur.push(s[i]), acc)
    }
}

/// The newline-separated lines of `s`, in order.
pub open spec fn lines(s: Seq<u8>) -> Seq<Seq<u8>> {
    lines_from(s, 0, Seq::empty(), Seq::empty())
}

/// Value of an ASCII digit in bases up to sixteen (either letter case);
/// 255 for any other byte.
pub open spec fn digit_value(c: u8) -> nat {
    if 0x30u8 <= c && c <= 0x39u8 {
        (c - 0x30u8) as nat
    } else if 0x61u8 <= c && c <= 0x66u8 {
        (c - 0x61u8 + 10) as nat
    } else if 0x41u8 <= c && c <= 0x46u8 {
        (c - 0x41u8 + 10) as nat
    } else {
        255
    }
}

/// Every byte of `s` is a digit in base `radix`.
pub open spec fn all_digits(radix: nat, s: Seq<u8>) -> bool {
    forall|k: int| 0 <= k < s.len() ==> #[trigger] digit_value(s[k]) < radix
}

/// The number that the digits `s` denote in base `radix`, most significant
/// digit first.
pub open spec fn num_value(radix: nat, s: Seq<u8>) -> nat
    decreases s.len(),
{
    if s.len() == 0 {
        0
    } else {
        num_value(radix, s.drop_last()) * radix + digit_value(s.last())
    }
}

/// The number that `s` spells in base `radix`, when `s` is a non-empty run of
/// digits whose value is at most `max`.
pub open spec fn number_of(radix: nat, max: nat, s: Seq<u8>) -> Option<nat> {
    if s.len() > 0 && all_digits(radix, s) && num_value(radix, s) <= max {
        Some(num_value(radix, s))
    } else {
        None
    }
}

proof fn lemma_num_value_prefix_grows(radix: nat, s: Seq<u8>, i: int, j: int)
    requires
        radix >= 1,
        0 <= i <= j <= s.len(),
    ensures
        num_value(radix, s.take(i)) <= num_value(radix, s.take(j)),
    decreases j - i,
{
    if i < j {
        lemma_num_value_prefix_grows(radix, s, i, j - 1);
        assert(s.take(j).drop_last() =~= s.take(j - 1));
        let v = num_value(radix, s.take(j - 1));
        assert(v * radix >= v) by (nonlinear_arith)
            requires
                radix >= 1,
        ;
    }
}

proof fn lemma_push_deep_view(before: Vec<Vec<u8>>, after: Vec<Vec<u8>>, x: Vec<u8>)
    requires
        after@ == before@.push(x),
    ensures
        after.deep_view() == before.deep_view().push(x@),
{
    assert(x.deep_view() =~= x@);
    assert(after.deep_view() =~= before.deep_view().push(x@));
}

/// Value of the digit `c`, or 255 where `c` is no digit.
pub fn digit(c: u8) -> (r: u8)
    ensures
        r as nat == digit_value(c),
{
    if 0x30u8 <= c && c <= 0x39u8 {
        c - 0x30u8
    } else if 0x61u8 <= c && c <= 0x66u8 {
        c - 0x61u8 + 10
    } else if 0x41u8 <= c && c <= 0x46u8 {
        c - 0x41u8 + 10
    } else {
        255
    }
}

/// Reads `s` as a number in base `radix`; `None` unless `s` is a non-empty
/// run of digits of that base whose value is at most `max`.
pub fn parse_number(s: &[u8], radix: u64, max: u64) -> (r: Option<u64>)
    requires
        2 <= radix <= 16,
    ensures
        r is Some <==> number_of(radix as nat, max as nat, s@) is Some,
        r is Some ==> number_of(radix as nat, max as nat, s@) == Some(r->0 as nat),
{
    if s.len() == 0 {
        return None;
    }
    let mut v: u64 = 0;
    let mut i: usize = 0;
    while i < s.len()
        invariant
            2 <= radix <= 16,
            0 <= i <= s.len(),
            v as nat == num_value(radix as nat, s@.take(i as int)),
            v <= max,
            all_digits(radix as nat, s@.take(i as int)),
        decreases s.len() - i,
    {
        let d = digit(s[i]);
        proof {
            assert(s@.take(i + 1).drop_last() =~= s@.take(i as int));
            assert(s@.take(i + 1).last() == s@[i as int]);
        }
        if d as u64 >= radix {
            assert(!all_digits(radix as nat, s@)) by {
                assert(digit_value(s@[i as int]) >= radix);
            }
            return None;
        }
        assert(v * radix <= 0xffff_ffff_ffff_ffffu64 * 16) by (nonlinear_arith)
            requires
                v <= 0xffff_ffff_ffff_ffffu64,
                radix <= 16,
        ;
        let next: u128 = v as u128 * radix as u128 + d as u128;
        if next > max as u128 {
            proof {
                lemma_num_value_prefix_grows(radix as nat, s@, i + 1, s@.len() as int);
                assert(s@.take(s@.len() as int) =~= s@);
            }
            return None;
        }
        v = next as u64;
        i = i + 1;
        assert forall|k: int| 0 <= k < i implies #[trigger] digit_value(s@.take(i as int)[k])
            < radix by {
            if k < i - 1 {
                assert(s@.take(i as int)[k] == s@.take(i - 1)[k]);
            }
        }
    }
    assert(s@.take(s@.len() as int) =~= s@);
    Some(v)
}

/// Splits `s` into its blank-separated fields.
pub fn split_fields(s: &[u8]) -> (r: Vec<Vec<u8>>)
    ensures
        r.deep_view() == fields(s@),
{
    let mut acc: Vec<Vec<u8>> = Vec::new();
    let mut cur: Vec<u8> = Vec::new();
    assert(acc.deep_view() =~= Seq::<Seq<u8>>::empty());
    let mut i: usize = 0;
    while i < s.len()
        invariant
            0 <= i <= s.len(),
            fields_from(s@, i as int, cur@, acc.deep_view()) == fields(s@),
        decreases s.len() - i,
    {
        if s[i] == 0x20u8 || s[i] == 0x09u8 || s[i] == 0x0du8 {
            if cur.len() > 0 {
                let ghost before = acc;
                let ghost done = cur;
                acc.push(cur);
                proof {
                    lemma_push_deep_view(before, acc, done);
                }
            }
            cur = Vec::new();
            assert(cur@ =~= Seq::<u8>::empty());
        } else {
            cur.push(s[i]);
        }
        i = i + 1;
    }
    if cur.len() > 0 {
        let ghost before = acc;
        let ghost last = cur;
        acc.push(cur);
        proof {
            lemma_push_deep_view(before, acc, last);
        }
    }
    acc
}

/// Splits `s` into its newline-separated lines.
pub fn split_lines(s: &[u8]) -> (r: Vec<Vec<u8>>)
    ensures
        r.deep_view() == lines(s@),
{
    let mut acc: Vec<Vec<u8>> = Vec::new();
    let mut cur: Vec<u8> = Vec::new();
    assert(acc.deep_view() =~= Seq::<Seq<u8>>::empty());
    let mut i: usize = 0;
    while i < s.len()
        invariant
            0 <= i <= s.len(),
            lines_from(s@, i as int, cur@, acc.deep_view()) == lines(s@),
        decreases s.len() - i,
    {
        if s[i] == 0x0au8 {
            let ghost before = acc;
            let ghost done = cur;
            acc.push(cur);
            proof {
                lemma_push_deep_view(before, acc, done);
            }
            cur = Vec::new();
            assert(cur@ =~= Seq::<u8>::empty());
        } else {
            cur.push(s[i]);
        }
        i = i + 1;
    }
    if cur.len() > 0 {
        let ghost before = acc;
        let ghost last = cur;
        acc.push(cur);
        proof {
            lemma_push_deep_view(before, acc, last);
        }
    }
    acc
}

} // verus!
