//! Message identifiers.
use crate::clock::clock_nanos;
use crate::clock::now_nanos;
use vstd::prelude::*;
use vstd::string::StringExecFns;

verus! {

/// The lower-case hexadecimal digit of value `d`.
pub open spec fn hex_digit(d: int) -> char {
    seq!['0', '1', '2', '3', '4', '5', '6', '7', '8', '9', 'a', 'b', 'c', 'd', 'e', 'f'][d]
}

/// `n` in lower-case hexadecimal, without leading zeros.
pub open spec fn hex(n: nat) -> Seq<char>
    decreases n,
{
    if n < 16 {
        seq![hex_digit(n as int)]
    } else {
        hex(n / 16).push(hex_digit((n % 16) as int))
    }
}

/// The identifier made of a time in nanoseconds and a running number: both in hexadecimal, with
/// a hyphen between them.
pub open spec fn id_text(nanos: nat, number: nat) -> Seq<char> {
    hex(nanos).push('-') + hex(number)
}

/// Digits of different values are different characters, and none of them is a hyphen.
proof fn lemma_hex_digit(c: int, d: int)
    requires
        0 <= c < 16,
        0 <= d < 16,
    ensures
        hex_digit(c) != '-',
        hex_digit(c) == hex_digit(d) ==> c == d,
{
}

/// Hexadecimal text is not empty and holds no hyphen.
proof fn lemma_hex_has_no_hyphen(n: nat)
    ensures
        hex(n).len() > 0,
        forall|i: int| 0 <= i < hex(n).len() ==> #[trigger] hex(n)[i] != '-',
    decreases n,
{
    lemma_hex_digit((n % 16) as int, 0);
    if n >= 16 {
        lemma_hex_has_no_hyphen(n / 16);
    }
}

/// Different numbers have different hexadecimal texts.
pub proof fn law_hex_is_injective(m: nat, n: nat)
    requires
        hex(m) == hex(n),
    ensures
        m == n,
    decreases m,
{
    lemma_hex_digit((m % 16) as int, (n % 16) as int);
    lemma_hex_has_no_hyphen(m / 16);
    lemma_hex_has_no_hyphen(n / 16);
    assert(hex(m).last() == hex_digit((m % 16) as int));
    assert(hex(n).last() == hex_digit((n % 16) as int));
    if m >= 16 && n >= 16 {
        assert(hex(m).drop_last() =~= hex(m / 16));
        assert(hex(n).drop_last() =~= hex(n / 16));
        law_hex_is_injective(m / 16, n / 16);
    } else if m >= 16 {
        assert(hex(m).len() > 1);
    } else if n >= 16 {
        assert(hex(n).len() > 1);
    }
}

/// Two identifiers are the same text only if both the time and the running number agree, so
/// identifiers with different running numbers differ, whatever the clock says.
pub proof fn law_ids_are_unique(nanos1: nat, number1: nat, nanos2: nat, number2: nat)
    requires
        id_text(nanos1, number1) == id_text(nanos2, number2),
    ensures
        nanos1 == nanos2,
        number1 == number2,
{
    let left = id_text(nanos1, number1);
    let a = hex(nanos1);
    let b = hex(nanos2);
    lemma_hex_has_no_hyphen(nanos1);
    lemma_hex_has_no_hyphen(nanos2);
    assert(left[a.len() as int] == '-');
    assert(id_text(nanos2, number2)[b.len() as int] == '-');
    if a.len() < b.len() {
        assert(b[a.len() as int] == left[a.len() as int]);
    }
    if b.len() < a.len() {
        assert(a[b.len() as int] == left[b.len() as int]);
    }
    assert(a =~= left.take(a.len() as int));
    assert(b =~= left.take(b.len() as int));
    assert(hex(number1) =~= left.skip(a.len() as int + 1));
    assert(hex(number2) =~= left.skip(b.len() as int + 1));
    law_hex_is_injective(nanos1, nanos2);
    law_hex_is_injective(number1, number2);
}

/// The hexadecimal digit of value `d`.
fn digit(d: u8) -> (r: &'static str)
    requires
        d < 16,
    ensures
        r@ == seq![hex_digit(d as int)],
{
    proof {
        reveal_strlit("0");
        reveal_strlit("1");
        reveal_strlit("2");
        reveal_strlit("3");
        reveal_strlit("4");
        reveal_strlit("5");
        reveal_strlit("6");
        reveal_strlit("7");
        reveal_strlit("8");
        reveal_strlit("9");
        reveal_strlit("a");
        reveal_strlit("b");
        reveal_strlit("c");
        reveal_strlit("d");
        reveal_strlit("e");
        reveal_strlit("f");
    }
    match d {
        0 => "0",
        1 => "1",
        2 => "2",
        3 => "3",
        4 => "4",
        5 => "5",
        6 => "6",
        7 => "7",
        8 => "8",
        9 => "9",
        10 => "a",
        11 => "b",
        12 => "c",
        13 => "d",
        14 => "e",
        _ => "f",
    }
}

/// Appends `n` in hexadecimal.
fn append_hex(out: &mut String, n: u128)
    ensures
        final(out)@ == old(out)@ + hex(n as nat),
    decreases n,
{
    if n >= 16 {
        append_hex(out, n / 16);
    }
    out.append(digit((n % 16) as u8));
    assert(out@ =~= old(out)@ + hex(n as nat));
}

/// Hands out identifiers that are unique among those of one source.
#[derive(Debug)]
pub struct MessageIds {
    next: u64,
}

impl MessageIds {
    /// The running number of the next identifier.
    pub closed spec fn number(self) -> u64 {
        self.next
    }

    /// A source that has handed out nothing yet.
    pub fn new() -> (r: Self)
        ensures
            r.number() == 0,
    {
        MessageIds { next: 0 }
    }

    /// The next identifier, for a message made at `nanos` after the Unix epoch. The running
    /// number wraps around after the largest 64-bit value.
    pub fn uuid_lite_at(&mut self, nanos: u128) -> (r: String)
        ensures
            r@ == id_text(nanos as nat, old(self).number() as nat),
            final(self).number() == (old(self).number() + 1) % 0x1_0000_0000_0000_0000,
    {
        let number: u64 = self.next;
        self.next = number.wrapping_add(1);
        let mut id = String::new();
        append_hex(&mut id, nanos);
        id.append("-");
        append_hex(&mut id, number as u128);
        proof {
            reveal_strlit("-");
        }
        assert(id@ =~= id_text(nanos as nat, number as nat));
        id
    }

    /// The next identifier, for a message made now. Its time is whatever the clock says.
    pub fn uuid_lite(&mut self) -> (r: String)
        ensures
            exists|nanos: u128| #[trigger]
                clock_nanos(nanos) && r@ == id_text(nanos as nat, old(self).number() as nat),
            final(self).number() == (old(self).number() + 1) % 0x1_0000_0000_0000_0000,
    {
        self.uuid_lite_at(now_nanos())
    }
}

/// The value of a lower-case hexadecimal digit; `None` for any other character.
pub open spec fn digit_value(c: char) -> Option<nat> {
    if '0' <= c <= '9' {
        Some((c as int - '0' as int) as nat)
    } else if 'a' <= c <= 'f' {
        Some((c as int - 'a' as int + 10) as nat)
    } else {
        None
    }
}

/// The number that a text of hexadecimal digits stands for, the most significant one first;
/// `None` for a text that holds anything else, or nothing.
pub open spec fn hex_value(text: Seq<char>) -> Option<nat>
    decreases text.len(),
{
    if text.len() == 0 {
        None
    } else if text.len() == 1 {
        digit_value(text[0])
    } else {
        match (hex_value(text.drop_last()), digit_value(text.last())) {
            (Some(front), Some(digit)) => Some(16 * front + digit),
            _ => None,
        }
    }
}

/// Hexadecimal text reads back as the number that it was made of, is all digits and lower-case
/// letters, and has no leading zero but that of zero itself.
pub proof fn law_hex_reads_back(n: nat)
    ensures
        hex_value(hex(n)) == Some(n),
        forall|i: int|
            0 <= i < hex(n).len() ==> '0' <= #[trigger] hex(n)[i] <= '9' || 'a' <= hex(n)[i] <= 'f',
        hex(n).len() > 1 ==> hex(n)[0] != '0',
    decreases n,
{
    let d = (n % 16) as int;
    assert(digit_value(hex_digit(d)) == Some(d as nat));
    assert(d != 0 ==> hex_digit(d) != '0');
    if n >= 16 {
        law_hex_reads_back(n / 16);
        lemma_hex_has_no_hyphen(n / 16);
        assert(hex(n).drop_last() =~= hex(n / 16));
        assert(hex(n)[0] == hex(n / 16)[0]);
    }
}

/// An identifier spells, in hexadecimal without leading zeros, its time before the hyphen, which
/// stands at the returned place, and its running number after it. The next number is one more,
/// and 0 after the largest.
pub proof fn law_id_spells_time_and_number(
    ids: &mut MessageIds,
    nanos: u128,
    r: String,
) -> (hyphen: int)
    requires
        call_ensures(MessageIds::uuid_lite_at, (ids, nanos), r),
    ensures
        0 <= hyphen < r@.len(),
        r@[hyphen] == '-',
        hex_value(r@.take(hyphen)) == Some(nanos as nat),
        hex_value(r@.skip(hyphen + 1)) == Some(old(ids).number() as nat),
        forall|i: int|
            0 <= i < r@.len() && i != hyphen ==> '0' <= #[trigger] r@[i] <= '9' || 'a' <= r@[i]
                <= 'f',
        hyphen > 1 ==> r@[0] != '0',
        r@.len() > hyphen + 2 ==> r@[hyphen + 1] != '0',
        old(ids).number() < u64::MAX ==> final(ids).number() == old(ids).number() + 1,
        old(ids).number() == u64::MAX ==> final(ids).number() == 0,
{
    let time = hex(nanos as nat);
    let number = hex(old(ids).number() as nat);
    law_hex_reads_back(nanos as nat);
    law_hex_reads_back(old(ids).number() as nat);
    assert(r@.take(time.len() as int) =~= time);
    assert(r@.skip(time.len() as int + 1) =~= number);
    assert(r@[time.len() as int] == '-');
    assert(time.len() > 1 ==> r@[0] == time[0]);
    assert(number.len() > 1 ==> r@[time.len() as int + 1] == number[0]);
    assert forall|i: int| 0 <= i < r@.len() && i != time.len() implies '0' <= #[trigger] r@[i]
        <= '9' || 'a' <= r@[i] <= 'f' by {
        if i < time.len() {
            assert(r@[i] == time[i]);
        } else {
            assert(r@[i] == number[i - time.len() - 1]);
        }
    }
    time.len() as int
}

/// An identifier made now is one made at a time that the clock tells: it spells that time, in
/// hexadecimal without leading zeros, before the hyphen at `hyphen`, and its running number after
/// it. The next number is one more, and 0 after the largest.
pub proof fn law_id_made_now_spells_the_clock(ids: &mut MessageIds, r: String)
    requires
        call_ensures(MessageIds::uuid_lite, (ids,), r),
    ensures
        exists|hyphen: int, nanos: u128|
            {
                &&& 0 <= hyphen < r@.len()
                &&& #[trigger] r@[hyphen] == '-'
                &&& #[trigger] clock_nanos(nanos)
                &&& hex_value(r@.take(hyphen)) == Some(nanos as nat)
                &&& hex_value(r@.skip(hyphen + 1)) == Some(old(ids).number() as nat)
                &&& hyphen > 1 ==> r@[0] != '0'
                &&& r@.len() > hyphen + 2 ==> r@[hyphen + 1] != '0'
            },
        old(ids).number() < u64::MAX ==> final(ids).number() == old(ids).number() + 1,
        old(ids).number() == u64::MAX ==> final(ids).number() == 0,
{
    let nanos = choose|nanos: u128| #[trigger]
        clock_nanos(nanos) && r@ == id_text(nanos as nat, old(ids).number() as nat);
    let time = hex(nanos as nat);
    let number = hex(old(ids).number() as nat);
    law_hex_reads_back(nanos as nat);
    law_hex_reads_back(old(ids).number() as nat);
    assert(r@.take(time.len() as int) =~= time);
    assert(r@.skip(time.len() as int + 1) =~= number);
    assert(r@[time.len() as int] == '-');
    assert(time.len() > 1 ==> r@[0] == time[0]);
    assert(number.len() > 1 ==> r@[time.len() as int + 1] == number[0]);
}

/// A new source begins with number 0, and an identifier never equals the one handed out right
/// after it by the same source, at whatever times they are made.
pub proof fn law_next_id_is_another(
    source: MessageIds,
    first: &mut MessageIds,
    first_nanos: u128,
    first_id: String,
    second: &mut MessageIds,
    second_nanos: u128,
    second_id: String,
)
    requires
        call_ensures(MessageIds::new, (), source),
        call_ensures(MessageIds::uuid_lite_at, (first, first_nanos), first_id),
        *old(second) == *final(first),
        call_ensures(MessageIds::uuid_lite_at, (second, second_nanos), second_id),
    ensures
        source.number() == 0,
        first_id@ != second_id@,
{
    if first_id@ == second_id@ {
        law_ids_are_unique(
            first_nanos as nat,
            old(first).number() as nat,
            second_nanos as nat,
            old(second).number() as nat,
        );
    }
}

} // verus!
