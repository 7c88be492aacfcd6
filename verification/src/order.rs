//! Order sides and client order identifiers of the simulated engine.

use vstd::prelude::*;
use vstd::string::StringExecFns;

verus! {

/// Side of a simulated order.
#[derive(Clone, Copy, Debug, PartialEq, Eq, Structural)]
pub enum OrderSide {
    Buy,
    Sell,
}

impl OrderSide {
    /// `"buy"` or `"sell"`, as the trade log writes the side.
    pub fn to_string(&self) -> (res: String)
        ensures
            *self == OrderSide::Buy ==> res@ == "buy"@,
            *self == OrderSide::Sell ==> res@ == "sell"@,
    {
        match self {
            OrderSide::Buy => String::from_str("buy"),
            OrderSide::Sell => String::from_str("sell"),
        }
    }
}

/// First exchange-side identifier that the simulator hands out.
pub const FIRST_EXCHANGE_ID: u64 = 900_000_000;

/// Client order identifiers reserved for each slot.
pub const IDS_PER_SLOT: u64 = 1_000_000;

/// First client order identifier of slot `index`.
pub open spec fn slot_base(index: int) -> int {
    (index + 1) * IDS_PER_SLOT
}

/// First client order identifier of slot `index`: `(index + 1) * 1_000_000`.
pub fn slot_cid_base(index: u64) -> (res: u64)
    requires
        slot_base(index as int) <= u64::MAX,
    ensures
        res == slot_base(index as int),
{
    (index + 1) * IDS_PER_SLOT
}

/// Slots never share a client order identifier while each hands out fewer than
/// `IDS_PER_SLOT` of them.
pub proof fn lemma_slot_ids_disjoint(i: int, j: int, a: int, b: int)
    requires
        0 <= i,
        0 <= j,
        i != j,
        0 <= a < IDS_PER_SLOT,
        0 <= b < IDS_PER_SLOT,
    ensures
        slot_base(i) + a != slot_base(j) + b,
{
    if i < j {
        assert((i + 1) * IDS_PER_SLOT + IDS_PER_SLOT <= (j + 1) * IDS_PER_SLOT) by (nonlinear_arith)
            requires
                i < j,
        ;
    } else {
        assert((j + 1) * IDS_PER_SLOT + IDS_PER_SLOT <= (i + 1) * IDS_PER_SLOT) by (nonlinear_arith)
            requires
                j < i,
        ;
    }
}

/// Counters that hand out client and exchange order identifiers.
pub struct OrderIds {
    next_cid: u64,
    next_eid: u64,
}

impl OrderIds {
    pub closed spec fn next_client_id(&self) -> u64 {
        self.next_cid
    }

    pub closed spec fn next_exchange_id(&self) -> u64 {
        self.next_eid
    }

    /// Client identifiers start at `first_client_id`, exchange identifiers at 900,000,000.
    pub fn new(first_client_id: u64) -> (res: Self)
        ensures
            res.next_client_id() == first_client_id,
            res.next_exchange_id() == FIRST_EXCHANGE_ID,
    {
        OrderIds { next_cid: first_client_id, next_eid: FIRST_EXCHANGE_ID }
    }

    /// Whether another client identifier can be handed out.
    pub fn can_alloc_cid(&self) -> (res: bool)
        ensures
            res == (self.next_client_id() < u64::MAX),
    {
        self.next_cid < u64::MAX
    }

    /// Whether another exchange identifier can be handed out.
    pub fn can_alloc_eid(&self) -> (res: bool)
        ensures
            res == (self.next_exchange_id() < u64::MAX),
    {
        self.next_eid < u64::MAX
    }

    /// Hands out the next client identifier.
    pub fn alloc_cid(&mut self) -> (res: u64)
        requires
            old(self).next_client_id() < u64::MAX,
        ensures
            res == old(self).next_client_id(),
            final(self).next_client_id() == res + 1,
            final(self).next_exchange_id() == old(self).next_exchange_id(),
    {
        let cid = self.next_cid;
        self.next_cid = self.next_cid + 1;
        cid
    }

    /// Hands out the next exchange identifier.
    pub fn alloc_eid(&mut self) -> (res: u64)
        requires
            old(self).next_exchange_id() < u64::MAX,
        ensures
            res == old(self).next_exchange_id(),
            final(self).next_exchange_id() == res + 1,
            final(self).next_client_id() == old(self).next_client_id(),
    {
        let eid = self.next_eid;
        self.next_eid = self.next_eid + 1;
        eid
    }
}

/// Decimal digits of `n`, most significant first.
pub open spec fn decimal_digits(n: nat) -> Seq<u8>
    decreases n,
{
    if n < 10 {
        seq![n as u8]
    } else {
        decimal_digits(n / 10).push((n % 10) as u8)
    }
}

pub open spec fn digit_char(d: u8) -> char {
    (48 + d) as char
}

/// Text of a slot's label: `s` and the slot index in decimal, zero-padded to at least
/// three digits.
pub open spec fn slot_label_text(index: nat) -> Seq<char> {
    let digits = decimal_digits(index).map_values(|d: u8| digit_char(d));
    let pad: int = if digits.len() < 3 {
        3 - digits.len()
    } else {
        0
    };
    seq!['s'] + Seq::new(pad as nat, |i: int| '0') + digits
}

/// Labels of the first thousand slots are `s` and exactly three decimal digits of the
/// index (hundreds, tens, units), so that they sort in slot order.
pub proof fn lemma_slot_label_three_digits(index: nat)
    requires
        index < 1000,
    ensures
        slot_label_text(index) == seq![
            's',
            digit_char((index / 100) as u8),
            digit_char(((index / 10) % 10) as u8),
            digit_char((index % 10) as u8),
        ],
{
    reveal_with_fuel(decimal_digits, 3);
    let digits = decimal_digits(index).map_values(|d: u8| digit_char(d));
    if index < 10 {
        assert(decimal_digits(index) == seq![index as u8]);
    } else if index < 100 {
        assert(decimal_digits(index / 10) == seq![(index / 10) as u8]);
        assert(decimal_digits(index) =~= seq![(index / 10) as u8, (index % 10) as u8]);
    } else {
        assert((index / 10) / 10 == index / 100);
        assert(decimal_digits(index / 100) == seq![(index / 100) as u8]);
        assert(decimal_digits(index / 10) =~= seq![(index / 100) as u8, ((index / 10) % 10) as u8]);
        assert(decimal_digits(index) =~= seq![
            (index / 100) as u8,
            ((index / 10) % 10) as u8,
            (index % 10) as u8,
        ]);
    }
    assert(slot_label_text(index) =~= seq![
        's',
        digit_char((index / 100) as u8),
        digit_char(((index / 10) % 10) as u8),
        digit_char((index % 10) as u8),
    ]);
}

fn digit_str(d: u8) -> (res: &'static str)
    requires
        d < 10,
    ensures
        res@ == seq![digit_char(d)],
{
    proof {
        reveal_strlit("0");
        reveal_strlit("1");
        reveal_strlit("2");
        reveal_strlit("3");
        reveal_strlit("4");
        reveal_strlit("5");
        reveal_strlit("6");
        reveal_strlit("7");
        reveal_strlit("8");
        reveal_strlit("9");
    }
    let res = match d {
        0 => "0",
        1 => "1",
        2 => "2",
        3 => "3",
        4 => "4",
        5 => "5",
        6 => "6",
        7 => "7",
        8 => "8",
        _ => "9",
    };
    assert(res@ =~= seq![digit_char(d)]);
    res
}

/// Label of slot `index` in logs and summaries: `s000`, `s001`, ..., `s135`, ...
pub fn slot_label(index: usize) -> (res: String)
    ensures
        res@ == slot_label_text(index as nat),
{
    let mut rev: Vec<u8> = Vec::new();
    let mut m: usize = index;
    while m >= 10
        invariant
            decimal_digits(index as nat) == decimal_digits(m as nat) + rev@.reverse(),
            forall|i: int| 0 <= i < rev@.len() ==> #[trigger] rev@[i] < 10,
        decreases m,
    {
        let d = (m % 10) as u8;
        proof {
            assert(decimal_digits(m as nat) == decimal_digits((m / 10) as nat).push(d));
            assert(decimal_digits((m / 10) as nat).push(d) + rev@.reverse() =~= decimal_digits(
                (m / 10) as nat,
            ) + rev@.push(d).reverse());
        }
        rev.push(d);
        m = m / 10;
    }
    let ghost last = m as u8;
    proof {
        assert(decimal_digits(m as nat) == seq![last]);
        assert(seq![last] + rev@.reverse() =~= rev@.push(last).reverse());
    }
    rev.push(m as u8);
    let ghost digits = decimal_digits(index as nat);
    assert(digits == rev@.reverse());
    let n = rev.len();
    let mut label = String::from_str("s");
    proof {
        reveal_strlit("s");
        reveal_strlit("0");
    }
    let mut pad: usize = if n < 3 {
        3 - n
    } else {
        0
    };
    let ghost pad_total = pad;
    while pad > 0
        invariant
            pad <= pad_total,
            label@ == seq!['s'] + Seq::new((pad_total - pad) as nat, |i: int| '0'),
        decreases pad,
    {
        label.append("0");
        proof {
            reveal_strlit("0");
        }
        pad = pad - 1;
        assert(label@ =~= seq!['s'] + Seq::new((pad_total - pad) as nat, |i: int| '0'));
    }
    let ghost prefix = label@;
    let ghost mapped = digits.map_values(|d: u8| digit_char(d));
    let mut k: usize = n;
    while k > 0
        invariant
            k <= n,
            n == rev@.len(),
            digits == rev@.reverse(),
            mapped == digits.map_values(|d: u8| digit_char(d)),
            forall|i: int| 0 <= i < rev@.len() ==> #[trigger] rev@[i] < 10,
            label@ == prefix + mapped.take((n - k) as int),
        decreases k,
    {
        k = k - 1;
        let piece = digit_str(rev[k]);
        label.append(piece);
        proof {
            assert(mapped[(n - 1 - k) as int] == digit_char(rev@[k as int]));
            assert(mapped.take((n - k) as int) =~= mapped.take((n - 1 - k) as int).push(
                digit_char(rev@[k as int]),
            ));
        }
    }
    assert(mapped.take(n as int) =~= mapped);
    assert(label@ =~= slot_label_text(index as nat));
    label
}

} // verus!
