//! The wire format of inbound orders, and its validated parsing: a
//! typed record of decimal strings and tags, turned into a validated
//! [`Order`] or rejected before it can reach matching.

use crate::error::EngineError;
use crate::order::spec_validate_msg;
use crate::order::Order;
use crate::order::OrderModel;
use crate::order::OrderType;
use crate::order::Side;
use crate::order::TimeInForce;
use vstd::prelude::*;
use vstd::string::StringExecFns;
use vstd::string::StrSliceExecFns;

verus! {

/// A decimal digit.
pub open spec fn is_digit_char(c: char) -> bool {
    '0' <= c && c <= '9'
}

/// The value of one digit.
pub open spec fn digit_val(c: char) -> int {
    c as int - '0' as int
}

/// Whether a character sequence is all decimal digits.
pub open spec fn all_digits(s: Seq<char>) -> bool {
    forall|i: int| 0 <= i < s.len() ==> is_digit_char(#[trigger] s[i])
}

/// The number a digit sequence denotes, most significant digit first.
pub open spec fn digits_val(s: Seq<char>) -> int
    decreases s.len(),
{
    if s.len() == 0 {
        0
    } else {
        digits_val(s.drop_last()) * 10 + digit_val(s.last())
    }
}

/// A digit string's value never shrinks as digits are appended, and is
/// never negative.
pub proof fn lemma_digits_monotone(s: Seq<char>, k: int)
    requires
        all_digits(s),
        0 <= k <= s.len(),
    ensures
        digits_val(s.take(k)) >= 0,
        digits_val(s) >= digits_val(s.take(k)),
    decreases s.len() - k,
{
    lemma_digits_nonneg(s.take(k));
    if k == s.len() {
        assert(s.take(k) =~= s);
    } else {
        assert(s.take(k + 1).drop_last() =~= s.take(k));
        assert(s.take(k + 1).last() == s[k]);
        assert(digits_val(s.take(k + 1)) == digits_val(s.take(k)) * 10 + digit_val(s[k]));
        assert(is_digit_char(s[k]));
        lemma_digits_nonneg(s.take(k));
        lemma_digits_monotone(s, k + 1);
    }
}

/// A digit string's value is never negative.
pub proof fn lemma_digits_nonneg(s: Seq<char>)
    requires
        all_digits(s),
    ensures
        digits_val(s) >= 0,
    decreases s.len(),
{
    if s.len() > 0 {
        assert(is_digit_char(s.last()));
        assert(all_digits(s.drop_last())) by {
            assert(forall|i: int| 0 <= i < s.len() - 1 ==> s.drop_last()[i] == s[i]);
        }
        lemma_digits_nonneg(s.drop_last());
    }
}

/// Parse a decimal string into a `u64`: succeeds exactly on non-empty
/// all-digit strings whose value fits.
pub fn parse_u64(s: &str) -> (r: Option<u64>)
    ensures
        match r {
            Some(v) => s@.len() > 0 && all_digits(s@) && digits_val(s@) <= u64::MAX && v
                == digits_val(s@),
            None => s@.len() == 0 || !all_digits(s@) || digits_val(s@) > u64::MAX,
        },
{
    let n = s.unicode_len();
    if n == 0 {
        return None;
    }
    let mut acc: u64 = 0;
    let mut i: usize = 0;
    proof {
        assert(s@.take(0) =~= Seq::<char>::empty());
    }
    while i < n
        invariant
            i <= n,
            n == s@.len(),
            all_digits(s@.take(i as int)),
            acc == digits_val(s@.take(i as int)),
        decreases n - i,
    {
        let c = s.get_char(i);
        if !(c >= '0' && c <= '9') {
            proof {
                assert(!is_digit_char(s@[i as int]));
            }
            return None;
        }
        let d = (c as u32) - ('0' as u32);
        let ghost pre = acc;
        let step = acc.checked_mul(10);
        let acc10 = match step {
            Some(a) => a,
            None => {
                proof {
                    lemma_overflow_means_too_big(s@, i as int, pre, 0);
                }
                return None;
            },
        };
        let next = acc10.checked_add(d as u64);
        acc = match next {
            Some(a) => a,
            None => {
                proof {
                    lemma_overflow_means_too_big(s@, i as int, pre, d as int);
                }
                return None;
            },
        };
        proof {
            assert(s@.take(i as int + 1).drop_last() =~= s@.take(i as int));
            assert(s@.take(i as int + 1).last() == s@[i as int]);
            assert(all_digits(s@.take(i as int + 1))) by {
                assert(forall|k: int|
                    0 <= k < i as int ==> s@.take(i as int + 1)[k] == s@.take(i as int)[k]);
                assert(s@.take(i as int + 1)[i as int] == s@[i as int]);
            }
            assert(digit_val(s@[i as int]) == d as int);
        }
        i = i + 1;
    }
    proof {
        assert(s@.take(n as int) =~= s@);
    }
    Some(acc)
}

/// Where the next accumulation step overflows, the whole string's value
/// is too big (or some later character is not a digit).
proof fn lemma_overflow_means_too_big(s: Seq<char>, i: int, pre: u64, d: int)
    requires
        0 <= i < s.len(),
        all_digits(s.take(i)),
        pre == digits_val(s.take(i)),
        is_digit_char(s[i]),
        d == 0 || d == digit_val(s[i]),
        pre * 10 + d > u64::MAX,
    ensures
        !all_digits(s) || digits_val(s) > u64::MAX,
{
    if all_digits(s) {
        assert(s.take(i + 1).drop_last() =~= s.take(i));
        assert(s.take(i + 1).last() == s[i]);
        assert(digits_val(s.take(i + 1)) == pre * 10 + digit_val(s[i]));
        assert(digit_val(s[i]) >= d);
        lemma_digits_monotone(s, i + 1);
    }
}

/// Parse a decimal string into a `u32`.
pub fn parse_u32(s: &str) -> (r: Option<u32>)
    ensures
        match r {
            Some(v) => s@.len() > 0 && all_digits(s@) && digits_val(s@) <= u32::MAX && v
                == digits_val(s@),
            None => s@.len() == 0 || !all_digits(s@) || digits_val(s@) > u32::MAX,
        },
{
    match parse_u64(s) {
        Some(v) => if v <= 0xffff_ffff {
            Some(v as u32)
        } else {
            None
        },
        None => {
            proof {
                if s@.len() > 0 && all_digits(s@) && digits_val(s@) <= u32::MAX {
                    assert(digits_val(s@) <= u64::MAX);
                }
            }
            None
        },
    }
}

/// Case-insensitive equality on ASCII letters: characters are equal,
/// or differ exactly by the ASCII case distance with the uppercase
/// letter on either side.
pub open spec fn char_eq_nocase(x: char, y: char) -> bool {
    ||| x == y
    ||| (x as int == y as int + 32 && 65 <= y as int <= 90)
    ||| (y as int == x as int + 32 && 65 <= x as int <= 90)
}

/// Case-insensitive equality of two character sequences.
pub open spec fn eq_nocase(a: Seq<char>, b: Seq<char>) -> bool {
    a.len() == b.len() && forall|i: int| 0 <= i < a.len() ==> char_eq_nocase(a[i], #[trigger] b[i])
}

/// Compare a string with a tag, ignoring ASCII case.
pub fn eq_ignore_case(s: &str, tag: &str) -> (r: bool)
    ensures
        r == eq_nocase(s@, tag@),
{
    let n = s.unicode_len();
    if n != tag.unicode_len() {
        return false;
    }
    let mut i: usize = 0;
    while i < n
        invariant
            i <= n,
            n == s@.len(),
            n == tag@.len(),
            forall|k: int| 0 <= k < i ==> char_eq_nocase(s@[k], #[trigger] tag@[k]),
        decreases n - i,
    {
        let a = s.get_char(i);
        let b = tag.get_char(i);
        let hit = a == b || ((a as u32) == (b as u32) + 32 && (b as u32) >= 65 && (b as u32)
            <= 90) || ((b as u32) == (a as u32) + 32 && (a as u32) >= 65 && (a as u32) <= 90);
        if !hit {
            proof {
                assert(!char_eq_nocase(s@[i as int], tag@[i as int]));
            }
            return false;
        }
        i = i + 1;
    }
    true
}

/// Parse an order side tag, case-insensitively.
pub fn side_from_str(s: &str) -> (r: Result<Side, EngineError>)
    ensures
        r == Ok::<Side, EngineError>(Side::Buy) <==> eq_nocase(s@, "BUY"@),
        r == Ok::<Side, EngineError>(Side::Sell) <==> eq_nocase(s@, "SELL"@),
        r is Err ==> match r->Err_0 {
            EngineError::OrderValidation(m) => m@ == "Invalid order side"@,
            _ => false,
        },
{
    proof {
        reveal_strlit("BUY");
        reveal_strlit("SELL");
    }
    if eq_ignore_case(s, "BUY") {
        Ok(Side::Buy)
    } else if eq_ignore_case(s, "SELL") {
        Ok(Side::Sell)
    } else {
        Err(EngineError::OrderValidation(String::from_str("Invalid order side")))
    }
}

/// Parse an order type tag, case-insensitively.
pub fn order_type_from_str(s: &str) -> (r: Result<OrderType, EngineError>)
    ensures
        r == Ok::<OrderType, EngineError>(OrderType::Market) <==> eq_nocase(s@, "MARKET"@),
        r == Ok::<OrderType, EngineError>(OrderType::Limit) <==> eq_nocase(s@, "LIMIT"@),
        r is Err ==> match r->Err_0 {
            EngineError::InvalidOrderType(m) => m@ == "Invalid order type"@,
            _ => false,
        },
{
    proof {
        reveal_strlit("MARKET");
        reveal_strlit("LIMIT");
    }
    if eq_ignore_case(s, "MARKET") {
        Ok(OrderType::Market)
    } else if eq_ignore_case(s, "LIMIT") {
        Ok(OrderType::Limit)
    } else {
        Err(EngineError::InvalidOrderType(String::from_str("Invalid order type")))
    }
}

/// Parse a time-in-force tag, case-insensitively.
pub fn tif_from_str(s: &str) -> (r: Result<TimeInForce, EngineError>)
    ensures
        r == Ok::<TimeInForce, EngineError>(TimeInForce::GTC) <==> eq_nocase(s@, "GTC"@),
        r == Ok::<TimeInForce, EngineError>(TimeInForce::IOC) <==> eq_nocase(s@, "IOC"@),
        r == Ok::<TimeInForce, EngineError>(TimeInForce::FOK) <==> eq_nocase(s@, "FOK"@),
        r is Err ==> match r->Err_0 {
            EngineError::OrderValidation(m) => m@ == "Invalid time-in-force"@,
            _ => false,
        },
{
    proof {
        reveal_strlit("GTC");
        reveal_strlit("IOC");
        reveal_strlit("FOK");
    }
    if eq_ignore_case(s, "GTC") {
        proof {
            if eq_nocase(s@, "IOC"@) {
                assert(char_eq_nocase(s@[0], "GTC"@[0]));
                assert(char_eq_nocase(s@[0], "IOC"@[0]));
                assert(false);
            }
            if eq_nocase(s@, "FOK"@) {
                assert(char_eq_nocase(s@[0], "GTC"@[0]));
                assert(char_eq_nocase(s@[0], "FOK"@[0]));
                assert(false);
            }
        }
        Ok(TimeInForce::GTC)
    } else if eq_ignore_case(s, "IOC") {
        proof {
            if eq_nocase(s@, "FOK"@) {
                assert(char_eq_nocase(s@[0], "IOC"@[0]));
                assert(char_eq_nocase(s@[0], "FOK"@[0]));
                assert(false);
            }
        }
        Ok(TimeInForce::IOC)
    } else if eq_ignore_case(s, "FOK") {
        Ok(TimeInForce::FOK)
    } else {
        Err(EngineError::OrderValidation(String::from_str("Invalid time-in-force")))
    }
}

/// Wire format of an inbound order: everything still a string, exactly
/// as the transport hands it over.
#[derive(Debug)]
pub struct OrderWire {
    pub outcome_id: String,
    pub account_id: String,
    pub market_id: String,
    pub outcome_name: String,
    pub side: String,
    pub order_type: String,
    pub price: String,
    pub qty_remaining: String,
    pub qty_original: String,
}

/// The mathematical content of an [`OrderWire`].
#[verifier::ext_equal]
pub ghost struct WireModel {
    pub outcome_id: Seq<char>,
    pub account_id: Seq<char>,
    pub market_id: Seq<char>,
    pub outcome_name: Seq<char>,
    pub side: Seq<char>,
    pub order_type: Seq<char>,
    pub price: Seq<char>,
    pub qty_remaining: Seq<char>,
    pub qty_original: Seq<char>,
}

impl View for OrderWire {
    type V = WireModel;

    open spec fn view(&self) -> WireModel {
        WireModel {
            outcome_id: self.outcome_id@,
            account_id: self.account_id@,
            market_id: self.market_id@,
            outcome_name: self.outcome_name@,
            side: self.side@,
            order_type: self.order_type@,
            price: self.price@,
            qty_remaining: self.qty_remaining@,
            qty_original: self.qty_original@,
        }
    }
}

impl Clone for OrderWire {
    fn clone(&self) -> (r: Self)
        ensures
            r@ == self@,
    {
        OrderWire {
            outcome_id: self.outcome_id.clone(),
            account_id: self.account_id.clone(),
            market_id: self.market_id.clone(),
            outcome_name: self.outcome_name.clone(),
            side: self.side.clone(),
            order_type: self.order_type.clone(),
            price: self.price.clone(),
            qty_remaining: self.qty_remaining.clone(),
            qty_original: self.qty_original.clone(),
        }
    }
}

/// Whether a decimal field parses into a `u64`.
pub open spec fn field_u64_ok(s: Seq<char>) -> bool {
    s.len() > 0 && all_digits(s) && digits_val(s) <= u64::MAX
}

/// Whether a decimal field parses into a `u32`.
pub open spec fn field_u32_ok(s: Seq<char>) -> bool {
    s.len() > 0 && all_digits(s) && digits_val(s) <= u32::MAX
}

/// Whether every field of a wire order parses into its typed form.
pub open spec fn wire_fields_parse(w: WireModel) -> bool {
    &&& field_u32_ok(w.market_id)
    &&& (eq_nocase(w.side, "BUY"@) || eq_nocase(w.side, "SELL"@))
    &&& (eq_nocase(w.order_type, "MARKET"@) || eq_nocase(w.order_type, "LIMIT"@))
    &&& field_u64_ok(w.price)
    &&& field_u64_ok(w.qty_remaining)
    &&& field_u64_ok(w.qty_original)
}

/// Whether every field of a wire order parses and the resulting order
/// passes validation.
pub open spec fn wire_parses(w: WireModel) -> bool {
    &&& wire_fields_parse(w)
    &&& spec_validate_msg(spec_wire_order(w)) is None
}

/// The validated order a parsable wire order denotes. Its order
/// identifier is zero: the book assigns the real one at placement.
pub open spec fn spec_wire_order(w: WireModel) -> OrderModel {
    OrderModel {
        order_id: 0,
        market_id: digits_val(w.market_id) as u32,
        outcome_id: w.outcome_id,
        account_id: w.account_id,
        side: if eq_nocase(w.side, "BUY"@) {
            Side::Buy
        } else {
            Side::Sell
        },
        order_type: if eq_nocase(w.order_type, "MARKET"@) {
            OrderType::Market
        } else {
            OrderType::Limit
        },
        price: digits_val(w.price) as u64,
        qty_remaining: digits_val(w.qty_remaining) as u64,
        qty_original: digits_val(w.qty_original) as u64,
    }
}

/// Parse a wire order's fields into a typed order, without checking
/// the business rules. Succeeds exactly when every field parses; the
/// returned order is exactly [`spec_wire_order`].
pub fn parse_wire(w: &OrderWire) -> (r: Result<Order, EngineError>)
    ensures
        r is Ok <==> wire_fields_parse(w@),
        r is Ok ==> r->Ok_0@ == spec_wire_order(w@),
        r is Err ==> (r->Err_0 is OrderValidation || r->Err_0 is InvalidOrderType),
{
    let market_id = match parse_u32(w.market_id.as_str()) {
        Some(v) => v,
        None => {
            return Err(EngineError::OrderValidation(String::from_str("Invalid market_id")));
        },
    };
    let side = match side_from_str(w.side.as_str()) {
        Ok(s) => s,
        Err(e) => {
            return Err(e);
        },
    };
    let order_type = match order_type_from_str(w.order_type.as_str()) {
        Ok(t) => t,
        Err(e) => {
            return Err(e);
        },
    };
    let price = match parse_u64(w.price.as_str()) {
        Some(v) => v,
        None => {
            return Err(EngineError::OrderValidation(String::from_str("Invalid price")));
        },
    };
    let qty_remaining = match parse_u64(w.qty_remaining.as_str()) {
        Some(v) => v,
        None => {
            return Err(EngineError::OrderValidation(String::from_str("Invalid qty_remaining")));
        },
    };
    let qty_original = match parse_u64(w.qty_original.as_str()) {
        Some(v) => v,
        None => {
            return Err(EngineError::OrderValidation(String::from_str("Invalid qty_original")));
        },
    };
    let order = Order {
        order_id: 0,
        market_id,
        outcome_id: w.outcome_id.clone(),
        account_id: w.account_id.clone(),
        side,
        order_type,
        price,
        qty_remaining,
        qty_original,
    };
    proof {
        assert(order@ == spec_wire_order(w@));
    }
    Ok(order)
}

/// Parse and validate a wire order. Succeeds exactly when every field
/// parses and the denoted order passes the business rules; the returned
/// order is exactly [`spec_wire_order`].
pub fn order_from_wire(w: &OrderWire) -> (r: Result<Order, EngineError>)
    ensures
        r is Ok <==> wire_parses(w@),
        r is Ok ==> r->Ok_0@ == spec_wire_order(w@),
        r is Err ==> (r->Err_0 is OrderValidation || r->Err_0 is InvalidOrderType),
{
    match parse_wire(w) {
        Ok(order) => match order.validate() {
            Ok(_) => Ok(order),
            Err(e) => Err(e),
        },
        Err(e) => Err(e),
    }
}

} // verus!
