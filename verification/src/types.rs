//! Order-book snapshot types.
//!
//! Prices and quantities are carried as the IEEE-754 bit patterns of the `f64`
//! values that the exchange sends. For values greater than zero (positive
//! subnormals up to `+inf`, never NaN) the bit pattern orders exactly as the
//! number does, so every comparison that the book logic makes is a comparison
//! of these keys.

use vstd::prelude::*;
use vstd::string::StringSliceAdditionalSpecFns;

use crate::book::{all_positive, best_first, select_levels, selected, RawLevel};

verus! {

/// Maximum number of price levels kept per side.
pub const MAX_LEVELS: usize = 50;

/// Longest symbol, in bytes, that a `Symbol` keeps.
pub const SYMBOL_CAPACITY: usize = 15;

/// Bit pattern of `f64::INFINITY`; the bit patterns `1..=POSITIVE_INFINITY_BITS` are
/// exactly those of the `f64` values greater than zero.
pub const POSITIVE_INFINITY_BITS: u64 = 0x7ff0_0000_0000_0000;

/// Bit pattern of `-0.0`.
pub const NEGATIVE_ZERO_BITS: u64 = 0x8000_0000_0000_0000;

/// Whether `bits` is the bit pattern of an `f64` greater than zero.
pub open spec fn is_positive_key(bits: u64) -> bool {
    1 <= bits <= POSITIVE_INFINITY_BITS
}

/// Whether `bits` is the bit pattern of an `f64` equal to zero (`0.0` or `-0.0`).
pub open spec fn is_zero_key(bits: u64) -> bool {
    bits == 0 || bits == NEGATIVE_ZERO_BITS
}

/// The order in which the exchange listed one side's levels.
#[derive(PartialEq, Eq, Structural, Clone, Copy, Debug)]
pub enum PriceOrder {
    Ascending,
    Descending,
    Unknown,
}

/// One price level: the bit patterns of its price and quantity.
#[derive(Clone, Copy, Debug, Default, PartialEq, Eq, Structural)]
pub struct PriceLevel {
    pub price_bits: u64,
    pub quantity_bits: u64,
}

impl PriceLevel {
    pub fn new(price_bits: u64, quantity_bits: u64) -> (res: Self)
        ensures
            res.price_bits == price_bits,
            res.quantity_bits == quantity_bits,
    {
        PriceLevel { price_bits, quantity_bits }
    }

    /// Both price and quantity are zero.
    pub fn is_empty(&self) -> (res: bool)
        ensures
            res == (is_zero_key(self.price_bits) && is_zero_key(self.quantity_bits)),
    {
        (self.price_bits == 0 || self.price_bits == NEGATIVE_ZERO_BITS) && (self.quantity_bits == 0
            || self.quantity_bits == NEGATIVE_ZERO_BITS)
    }
}

/// `std::str::from_utf8`: `Some` exactly when the bytes are valid UTF-8, and then the
/// string slice over those same bytes.
#[verifier::external_body]
fn str_from_utf8(bytes: &[u8]) -> (res: Option<&str>)
    ensures
        res is Some <==> vstd::utf8::valid_utf8(bytes@),
        res matches Some(s) ==> s.spec_bytes() == bytes@,
{
    std::str::from_utf8(bytes).ok()
}

/// A short, fixed-size trading symbol such as `BTC-USD`.
#[derive(Clone, Copy, PartialEq, Eq, Hash, Debug)]
pub struct Symbol {
    data: [u8; 16],
    len: u8,
}

impl View for Symbol {
    type V = Seq<u8>;

    closed spec fn view(&self) -> Seq<u8> {
        self.data@.take(self.len as int)
    }
}

impl Symbol {
    #[verifier::type_invariant]
    closed spec fn fits(self) -> bool {
        self.canonical()
    }

    /// At most 15 bytes are kept and every byte of storage past them is zero, so that
    /// two symbols holding the same bytes are equal (and hash alike).
    pub closed spec fn canonical(self) -> bool {
        &&& self.len <= SYMBOL_CAPACITY
        &&& forall|i: int| self.len <= i < 16 ==> #[trigger] self.data@[i] == 0
    }

    /// The bytes of `s`, cut after the first 15 bytes.
    pub fn new(s: &str) -> (res: Self)
        ensures
            res@ == s.spec_bytes().take(
                if s.spec_bytes().len() <= SYMBOL_CAPACITY {
                    s.spec_bytes().len() as int
                } else {
                    SYMBOL_CAPACITY as int
                },
            ),
            res.canonical(),
    {
        let bytes = s.as_bytes();
        let len: usize = if bytes.len() < SYMBOL_CAPACITY {
            bytes.len()
        } else {
            SYMBOL_CAPACITY
        };
        let mut data: [u8; 16] = [0u8; 16];
        let mut i: usize = 0;
        while i < len
            invariant
                len <= SYMBOL_CAPACITY,
                len <= bytes@.len(),
                i <= len,
                forall|j: int| 0 <= j < i ==> data@[j] == bytes@[j],
                forall|j: int| len <= j < 16 ==> data@[j] == 0,
            decreases len - i,
        {
            data[i] = bytes[i];
            i = i + 1;
        }
        let res = Symbol { data, len: len as u8 };
        assert(res@ =~= s.spec_bytes().take(len as int));
        res
    }

    /// The symbol as text; the kept bytes must form valid UTF-8.
    pub fn as_str(&self) -> (res: &str)
        requires
            vstd::utf8::valid_utf8(self@),
        ensures
            res.spec_bytes() == self@,
    {
        proof {
            use_type_invariant(self);
        }
        let n = self.len as usize;
        let all = self.data.as_slice();
        let kept = &all[0..n];
        assert(kept@ =~= self@);
        match str_from_utf8(kept) {
            Some(s) => s,
            None => {
                proof {
                    assert(false);
                }
                ""
            },
        }
    }

    /// The kept bytes.
    pub fn as_bytes(&self) -> (res: &[u8])
        ensures
            res@ == self@,
    {
        proof {
            use_type_invariant(self);
        }
        let n = self.len as usize;
        let all = self.data.as_slice();
        let kept = &all[0..n];
        assert(kept@ =~= self@);
        kept
    }

    pub fn len(&self) -> (res: usize)
        ensures
            res == self@.len(),
            res <= SYMBOL_CAPACITY,
    {
        proof {
            use_type_invariant(self);
        }
        self.len as usize
    }

    pub fn is_empty(&self) -> (res: bool)
        ensures
            res == (self@.len() == 0),
    {
        proof {
            use_type_invariant(self);
        }
        self.len == 0
    }
}

/// Symbols are equal exactly when they hold the same bytes: two symbols built from
/// texts whose first 15 bytes agree are equal.
pub proof fn lemma_symbol_equality(a: Symbol, b: Symbol)
    requires
        a.canonical(),
        b.canonical(),
    ensures
        a == b <==> a@ == b@,
{
    assert(a.data@.len() == 16 && b.data@.len() == 16);
    assert(a@.len() == a.len && b@.len() == b.len);
    if a@ == b@ {
        assert(a.len == b.len);
        assert(a.data@ =~= b.data@) by {
            assert forall|i: int| 0 <= i < 16 implies a.data@[i] == b.data@[i] by {
                if i < a.len {
                    assert(a@[i] == a.data@[i]);
                    assert(b@[i] == b.data@[i]);
                }
            }
        }
        assert(a.data =~= b.data);
    }
}

impl Default for Symbol {
    fn default() -> (res: Self)
        ensures
            res@ == Seq::<u8>::empty(),
            res.canonical(),
    {
        let res = Symbol { data: [0u8; 16], len: 0 };
        assert(res@ =~= Seq::<u8>::empty());
        res
    }
}


/// A snapshot of the order book of one symbol: bids best (highest) first, asks best
/// (lowest) first, every price and quantity above zero, at most `MAX_LEVELS` a side.
pub struct OrderbookSnapshot {
    symbol: Symbol,
    timestamp_ns: i64,
    received_at_ns: i64,
    sequence: u64,
    bids: Vec<PriceLevel>,
    asks: Vec<PriceLevel>,
}

impl OrderbookSnapshot {
    #[verifier::type_invariant]
    closed spec fn well_formed(self) -> bool {
        &&& self.bids.len() <= MAX_LEVELS
        &&& self.asks.len() <= MAX_LEVELS
        &&& all_positive(self.bids@)
        &&& all_positive(self.asks@)
        &&& best_first(true, self.bids@)
        &&& best_first(false, self.asks@)
    }

    pub closed spec fn bids_view(&self) -> Seq<PriceLevel> {
        self.bids@
    }

    pub closed spec fn asks_view(&self) -> Seq<PriceLevel> {
        self.asks@
    }

    pub closed spec fn symbol_view(&self) -> Symbol {
        self.symbol
    }

    pub closed spec fn timestamp_view(&self) -> i64 {
        self.timestamp_ns
    }

    pub closed spec fn received_at_view(&self) -> i64 {
        self.received_at_ns
    }

    pub closed spec fn sequence_view(&self) -> u64 {
        self.sequence
    }

    /// An empty book for `symbol`, all stamps zero.
    pub fn new(symbol: Symbol) -> (res: Self)
        ensures
            res.symbol_view() == symbol,
            res.timestamp_view() == 0,
            res.received_at_view() == 0,
            res.sequence_view() == 0,
            res.bids_view().len() == 0,
            res.asks_view().len() == 0,
    {
        OrderbookSnapshot {
            symbol,
            timestamp_ns: 0,
            received_at_ns: 0,
            sequence: 0,
            bids: Vec::new(),
            asks: Vec::new(),
        }
    }

    pub fn symbol(&self) -> (res: Symbol)
        ensures
            res == self.symbol_view(),
    {
        self.symbol
    }

    pub fn timestamp_ns(&self) -> (res: i64)
        ensures
            res == self.timestamp_view(),
    {
        self.timestamp_ns
    }

    pub fn received_at_ns(&self) -> (res: i64)
        ensures
            res == self.received_at_view(),
    {
        self.received_at_ns
    }

    pub fn sequence(&self) -> (res: u64)
        ensures
            res == self.sequence_view(),
    {
        self.sequence
    }

    pub fn set_timestamp_ns(&mut self, timestamp_ns: i64)
        ensures
            final(self).timestamp_view() == timestamp_ns,
            final(self).received_at_view() == old(self).received_at_view(),
            final(self).sequence_view() == old(self).sequence_view(),
            final(self).symbol_view() == old(self).symbol_view(),
            final(self).bids_view() == old(self).bids_view(),
            final(self).asks_view() == old(self).asks_view(),
    {
        proof {
            use_type_invariant(&*self);
        }
        self.timestamp_ns = timestamp_ns;
    }

    pub fn set_received_at_ns(&mut self, received_at_ns: i64)
        ensures
            final(self).received_at_view() == received_at_ns,
            final(self).timestamp_view() == old(self).timestamp_view(),
            final(self).sequence_view() == old(self).sequence_view(),
            final(self).symbol_view() == old(self).symbol_view(),
            final(self).bids_view() == old(self).bids_view(),
            final(self).asks_view() == old(self).asks_view(),
    {
        proof {
            use_type_invariant(&*self);
        }
        self.received_at_ns = received_at_ns;
    }

    pub fn set_sequence(&mut self, sequence: u64)
        ensures
            final(self).sequence_view() == sequence,
            final(self).timestamp_view() == old(self).timestamp_view(),
            final(self).received_at_view() == old(self).received_at_view(),
            final(self).symbol_view() == old(self).symbol_view(),
            final(self).bids_view() == old(self).bids_view(),
            final(self).asks_view() == old(self).asks_view(),
    {
        proof {
            use_type_invariant(&*self);
        }
        self.sequence = sequence;
    }

    pub fn best_bid(&self) -> (res: Option<PriceLevel>)
        ensures
            self.bids_view().len() == 0 ==> res is None,
            self.bids_view().len() > 0 ==> res == Some(self.bids_view()[0]),
    {
        if self.bids.len() > 0 {
            Some(self.bids[0])
        } else {
            None
        }
    }

    pub fn best_ask(&self) -> (res: Option<PriceLevel>)
        ensures
            self.asks_view().len() == 0 ==> res is None,
            self.asks_view().len() > 0 ==> res == Some(self.asks_view()[0]),
    {
        if self.asks.len() > 0 {
            Some(self.asks[0])
        } else {
            None
        }
    }

    pub fn bid_count(&self) -> (res: u8)
        ensures
            res == self.bids_view().len(),
    {
        proof {
            use_type_invariant(self);
        }
        self.bids.len() as u8
    }

    pub fn ask_count(&self) -> (res: u8)
        ensures
            res == self.asks_view().len(),
    {
        proof {
            use_type_invariant(self);
        }
        self.asks.len() as u8
    }

    /// The bid levels, best first.
    pub fn bid_levels(&self) -> (res: &[PriceLevel])
        ensures
            res@ == self.bids_view(),
            res@.len() <= MAX_LEVELS,
            all_positive(res@),
            best_first(true, res@),
    {
        proof {
            use_type_invariant(self);
        }
        self.bids.as_slice()
    }

    /// The ask levels, best first.
    pub fn ask_levels(&self) -> (res: &[PriceLevel])
        ensures
            res@ == self.asks_view(),
            res@.len() <= MAX_LEVELS,
            all_positive(res@),
            best_first(false, res@),
    {
        proof {
            use_type_invariant(self);
        }
        self.asks.as_slice()
    }

    /// Both sides hold a level and the book is not crossed (best bid below best ask).
    pub fn is_valid(&self) -> (res: bool)
        ensures
            res == (self.bids_view().len() > 0 && self.asks_view().len() > 0
                && self.bids_view()[0].price_bits < self.asks_view()[0].price_bits),
    {
        if self.bids.len() == 0 || self.asks.len() == 0 {
            return false;
        }
        if self.bids[0].price_bits >= self.asks[0].price_bits {
            return false;
        }
        true
    }

    /// Sets the bid side from raw levels, keeping at most `max_levels` of them.
    pub fn set_bids_from_parsed(&mut self, levels: &Vec<RawLevel>, max_levels: usize)
        ensures
            selected(levels@, max_levels, true, final(self).bids_view()),
            final(self).asks_view() == old(self).asks_view(),
            final(self).symbol_view() == old(self).symbol_view(),
            final(self).timestamp_view() == old(self).timestamp_view(),
            final(self).received_at_view() == old(self).received_at_view(),
            final(self).sequence_view() == old(self).sequence_view(),
    {
        proof {
            use_type_invariant(&*self);
        }
        let bids = select_levels(levels, max_levels, true);
        self.bids = bids;
    }

    /// Sets the ask side from raw levels, keeping at most `max_levels` of them.
    pub fn set_asks_from_parsed(&mut self, levels: &Vec<RawLevel>, max_levels: usize)
        ensures
            selected(levels@, max_levels, false, final(self).asks_view()),
            final(self).bids_view() == old(self).bids_view(),
            final(self).symbol_view() == old(self).symbol_view(),
            final(self).timestamp_view() == old(self).timestamp_view(),
            final(self).received_at_view() == old(self).received_at_view(),
            final(self).sequence_view() == old(self).sequence_view(),
    {
        proof {
            use_type_invariant(&*self);
        }
        let asks = select_levels(levels, max_levels, false);
        self.asks = asks;
    }
}

impl Clone for OrderbookSnapshot {
    fn clone(&self) -> (res: Self)
        ensures
            res.bids_view() == self.bids_view(),
            res.asks_view() == self.asks_view(),
            res.symbol_view() == self.symbol_view(),
            res.timestamp_view() == self.timestamp_view(),
            res.received_at_view() == self.received_at_view(),
            res.sequence_view() == self.sequence_view(),
    {
        proof {
            use_type_invariant(self);
        }
        let mut bids: Vec<PriceLevel> = Vec::new();
        let mut i: usize = 0;
        while i < self.bids.len()
            invariant
                i <= self.bids@.len(),
                bids@ == self.bids@.take(i as int),
            decreases self.bids@.len() - i,
        {
            bids.push(self.bids[i]);
            i = i + 1;
            assert(bids@ =~= self.bids@.take(i as int));
        }
        let mut asks: Vec<PriceLevel> = Vec::new();
        let mut j: usize = 0;
        while j < self.asks.len()
            invariant
                j <= self.asks@.len(),
                asks@ == self.asks@.take(j as int),
            decreases self.asks@.len() - j,
        {
            asks.push(self.asks[j]);
            j = j + 1;
            assert(asks@ =~= self.asks@.take(j as int));
        }
        assert(bids@ =~= self.bids@);
        assert(asks@ =~= self.asks@);
        OrderbookSnapshot {
            symbol: self.symbol,
            timestamp_ns: self.timestamp_ns,
            received_at_ns: self.received_at_ns,
            sequence: self.sequence,
            bids,
            asks,
        }
    }
}

impl Default for OrderbookSnapshot {
    fn default() -> (res: Self)
        ensures
            res.symbol_view()@ == Seq::<u8>::empty(),
            res.timestamp_view() == 0,
            res.received_at_view() == 0,
            res.sequence_view() == 0,
            res.bids_view().len() == 0,
            res.asks_view().len() == 0,
    {
        OrderbookSnapshot::new(Symbol::default())
    }
}

} // verus!
