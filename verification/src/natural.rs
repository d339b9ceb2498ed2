//! Natural numbers of any size, as far as exact ratios need them: sums, products
//! and comparison.
use vstd::prelude::*;

verus! {

/// A digit counts up to here.
pub const DIGIT_BASE: u64 = 0x1_0000_0000;

/// A natural number by its digits, lowest first.
pub struct Natural {
    pub digits: Vec<u32>,
}

/// The number that digits stand for.
pub open spec fn number(digits: Seq<u32>) -> int
    decreases digits.len(),
{
    if digits.len() == 0 {
        0
    } else {
        number(digits.drop_last()) + digits.last() * weight(digits.len() - 1)
    }
}

/// What a digit at a place counts for.
pub open spec fn weight(place: int) -> int
    decreases place,
{
    if place <= 0 {
        1
    } else {
        weight(place - 1) * 0x1_0000_0000
    }
}

proof fn weight_is_positive(place: int)
    ensures
        weight(place) > 0,
    decreases place,
{
    if place > 0 {
        weight_is_positive(place - 1);
    }
}

proof fn number_is_bounded(digits: Seq<u32>)
    ensures
        0 <= number(digits) < weight(digits.len() as int),
    decreases digits.len(),
{
    if digits.len() > 0 {
        number_is_bounded(digits.drop_last());
        let w = weight(digits.len() - 1);
        let d = digits.last() as int;
        assert(0 <= d * w <= 0xffff_ffff * w) by (nonlinear_arith)
            requires
                0 <= d <= 0xffff_ffff,
                w > 0,
        ;
        assert(weight(digits.len() as int) == w * 0x1_0000_0000);
        assert(0xffff_ffff * w + w == w * 0x1_0000_0000) by (nonlinear_arith);
    }
}

proof fn number_of_push(digits: Seq<u32>, digit: u32)
    ensures
        number(digits.push(digit)) == number(digits) + digit * weight(digits.len() as int),
{
    assert(digits.push(digit).drop_last() =~= digits);
}

/// The digit at a place; zero beyond the last.
pub open spec fn digit_at(digits: Seq<u32>, place: int) -> u32 {
    if place < digits.len() {
        digits[place]
    } else {
        0
    }
}

/// The number that the digits below a place stand for.
spec fn below(digits: Seq<u32>, place: int) -> int
    decreases place,
{
    if place <= 0 {
        0
    } else {
        below(digits, place - 1) + digit_at(digits, place - 1) * weight(place - 1)
    }
}

proof fn below_the_end(digits: Seq<u32>, place: int)
    requires
        0 <= place,
    ensures
        place <= digits.len() ==> below(digits, place) == number(digits.take(place)),
        place >= digits.len() ==> below(digits, place) == number(digits),
    decreases place,
{
    if place > 0 {
        below_the_end(digits, place - 1);
        if place <= digits.len() {
            assert(digits.take(place).drop_last() =~= digits.take(place - 1));
            assert(digits.take(digits.len() as int) =~= digits);
        } else {
            assert(0 * weight(place - 1) == 0);
        }
    } else {
        assert(digits.take(0) =~= Seq::<u32>::empty());
        if digits.len() == 0 {
            assert(digits =~= Seq::<u32>::empty());
        }
    }
}

proof fn below_is_bounded(digits: Seq<u32>, place: int)
    requires
        0 <= place,
    ensures
        0 <= below(digits, place) < weight(place),
    decreases place,
{
    if place > 0 {
        below_is_bounded(digits, place - 1);
        let w = weight(place - 1);
        let d = digit_at(digits, place - 1) as int;
        assert(0 <= d * w <= 0xffff_ffff * w) by (nonlinear_arith)
            requires
                0 <= d <= 0xffff_ffff,
                w > 0,
        ;
        assert(0xffff_ffff * w + w == w * 0x1_0000_0000) by (nonlinear_arith);
    }
}

impl Natural {
    /// The number.
    pub open spec fn view(&self) -> int {
        number(self.digits@)
    }

    fn digit(&self, place: usize) -> (digit: u32)
        ensures
            digit == digit_at(self.digits@, place as int),
    {
        if place < self.digits.len() {
            self.digits[place]
        } else {
            0
        }
    }

    /// A number of 128 bits.
    pub fn from_u128(value: u128) -> (result: Natural)
        ensures
            result@ == value,
            result.digits@.len() == 4,
    {
        let base: u128 = 0x1_0000_0000;
        let a: u128 = value / base;
        let b: u128 = a / base;
        let c: u128 = b / base;
        let mut digits: Vec<u32> = Vec::new();
        proof {
            assert(c < base) by (nonlinear_arith)
                requires
                    c == b / base,
                    b == a / base,
                    a == value / base,
                    base == 0x1_0000_0000,
                    value <= u128::MAX,
            ;
        }
        let ghost empty = digits@;
        digits.push((value % base) as u32);
        let ghost one = digits@;
        digits.push((a % base) as u32);
        let ghost two = digits@;
        digits.push((b % base) as u32);
        let ghost three = digits@;
        digits.push(c as u32);
        proof {
            number_of_push(empty, one[0]);
            number_of_push(one, two[1]);
            number_of_push(two, three[2]);
            number_of_push(three, digits@[3]);
            reveal_with_fuel(weight, 4);
            assert(number(empty) == 0);
            assert(value == a * 0x1_0000_0000 + one[0]);
            assert(a == b * 0x1_0000_0000 + two[1]);
            assert(b == c * 0x1_0000_0000 + three[2]);
            assert(number(one) == one[0]);
            assert(number(two) == number(one) + two[1] * 0x1_0000_0000);
            assert(number(three) == number(two) + three[2] * 0x1_0000_0000_0000_0000);
            assert(number(digits@) == number(three) + digits@[3]
                * 0x1_0000_0000_0000_0000_0000_0000);
        }
        Natural { digits }
    }

    /// The sum of two numbers.
    pub fn plus(&self, other: &Natural) -> (sum: Natural)
        requires
            self.digits@.len() < usize::MAX,
            other.digits@.len() < usize::MAX,
        ensures
            sum@ == self@ + other@,
            sum.digits@.len() <= self.digits@.len() + 1 || sum.digits@.len()
                <= other.digits@.len() + 1,
    {
        let length: usize = if self.digits.len() >= other.digits.len() {
            self.digits.len()
        } else {
            other.digits.len()
        };
        let mut digits: Vec<u32> = Vec::new();
        let mut carry: u64 = 0;
        let mut i: usize = 0;
        while i < length
            invariant
                i <= length,
                digits@.len() == i,
                carry <= 1,
                number(digits@) + carry * weight(i as int) == below(self.digits@, i as int)
                    + below(other.digits@, i as int),
            decreases length - i,
        {
            let a: u32 = self.digit(i);
            let b: u32 = other.digit(i);
            let total: u64 = (a as u64) + (b as u64) + carry;
            let ghost before = digits@;
            let digit: u32 = (total % DIGIT_BASE) as u32;
            let next: u64 = total / DIGIT_BASE;
            digits.push(digit);
            proof {
                number_of_push(before, digit);
                let w = weight(i as int);
                assert(weight(i + 1) == w * 0x1_0000_0000);
                assert(total == next * 0x1_0000_0000 + digit);
                assert(digit * w + next * (w * 0x1_0000_0000) == a * w + b * w + carry * w)
                    by (nonlinear_arith)
                    requires
                        a + b + carry == next * 0x1_0000_0000 + digit,
                ;
            }
            carry = next;
            i = i + 1;
        }
        let ghost before = digits@;
        if carry > 0 {
            digits.push(carry as u32);
        }
        proof {
            below_the_end(self.digits@, length as int);
            below_the_end(other.digits@, length as int);
            if carry > 0 {
                number_of_push(before, carry as u32);
            }
        }
        Natural { digits }
    }

    /// The product with a small number.
    pub fn times_small(&self, factor: u32) -> (product: Natural)
        requires
            self.digits@.len() < usize::MAX,
        ensures
            product@ == self@ * factor,
            product.digits@.len() == self.digits@.len() + 1,
    {
        let mut digits: Vec<u32> = Vec::new();
        let mut carry: u64 = 0;
        let mut i: usize = 0;
        proof {
            assert(0 * factor as int == 0);
        }
        while i < self.digits.len()
            invariant
                i <= self.digits@.len(),
                digits@.len() == i,
                carry < DIGIT_BASE,
                number(digits@) + carry * weight(i as int) == below(self.digits@, i as int)
                    * factor,
            decreases self.digits@.len() - i,
        {
            let d: u32 = self.digits[i];
            proof {
                assert(0 <= d * factor <= 0xffff_ffff * 0xffff_ffff) by (nonlinear_arith)
                    requires
                        0 <= d <= 0xffff_ffff,
                        0 <= factor <= 0xffff_ffff,
                ;
            }
            let total: u64 = (d as u64) * (factor as u64) + carry;
            let ghost before = digits@;
            let digit: u32 = (total % DIGIT_BASE) as u32;
            let next: u64 = total / DIGIT_BASE;
            digits.push(digit);
            proof {
                number_of_push(before, digit);
                let w = weight(i as int);
                let low = below(self.digits@, i as int);
                assert(weight(i + 1) == w * 0x1_0000_0000);
                assert(total == next * 0x1_0000_0000 + digit);
                assert(digit * w + next * (w * 0x1_0000_0000) == (d * factor + carry) * w)
                    by (nonlinear_arith)
                    requires
                        d * factor + carry == next * 0x1_0000_0000 + digit,
                ;
                assert((d * factor + carry) * w == (d * w) * factor + carry * w)
                    by (nonlinear_arith);
                assert((low + d * w) * factor == low * factor + (d * w) * factor)
                    by (nonlinear_arith);
            }
            carry = next;
            i = i + 1;
        }
        let ghost before = digits@;
        digits.push(carry as u32);
        proof {
            number_of_push(before, carry as u32);
            below_the_end(self.digits@, self.digits@.len() as int);
        }
        Natural { digits }
    }

    fn shifted(&self, places: usize) -> (result: Natural)
        ensures
            result@ == self@ * weight(places as int),
            result.digits@.len() == self.digits@.len() + places,
    {
        let mut digits: Vec<u32> = Vec::new();
        let mut i: usize = 0;
        while i < places
            invariant
                i <= places,
                digits@.len() == i,
                number(digits@) == 0,
            decreases places - i,
        {
            let ghost before = digits@;
            digits.push(0);
            proof {
                number_of_push(before, 0);
                assert(0 * weight(i as int) == 0);
            }
            i = i + 1;
        }
        let mut k: usize = 0;
        proof {
            assert(self.digits@.take(0) =~= Seq::<u32>::empty());
            assert(0 * weight(places as int) == 0);
        }
        while k < self.digits.len()
            invariant
                k <= self.digits@.len(),
                digits@.len() == places + k,
                number(digits@) == number(self.digits@.take(k as int)) * weight(places as int),
            decreases self.digits@.len() - k,
        {
            let ghost before = digits@;
            let d: u32 = self.digits[k];
            digits.push(d);
            proof {
                number_of_push(before, d);
                let part = self.digits@.take(k as int);
                assert(self.digits@.take(k + 1) =~= part.push(d));
                number_of_push(part, d);
                weights_multiply(places as int, k as int);
                let w = weight(places as int);
                let v = weight(k as int);
                assert((number(part) + d * v) * w == number(part) * w + d * (w * v))
                    by (nonlinear_arith);
            }
            k = k + 1;
        }
        proof {
            assert(self.digits@.take(k as int) =~= self.digits@);
        }
        Natural { digits }
    }

    /// The product of two numbers.
    pub fn times(&self, other: &Natural) -> (product: Natural)
        requires
            self.digits@.len() + other.digits@.len() < 1000,
        ensures
            product@ == self@ * other@,
            product.digits@.len() <= self.digits@.len() + 2 * other.digits@.len() + 1,
    {
        let mut product = Natural { digits: Vec::new() };
        let mut i: usize = 0;
        proof {
            assert(other.digits@.take(0) =~= Seq::<u32>::empty());
            assert(self@ * 0 == 0);
        }
        while i < other.digits.len()
            invariant
                self.digits@.len() + other.digits@.len() < 1000,
                i <= other.digits@.len(),
                product@ == self@ * number(other.digits@.take(i as int)),
                product.digits@.len() <= self.digits@.len() + 2 * i + 1,
            decreases other.digits@.len() - i,
        {
            let d: u32 = other.digits[i];
            let part = self.times_small(d).shifted(i);
            product = product.plus(&part);
            proof {
                let low = other.digits@.take(i as int);
                assert(other.digits@.take(i + 1) =~= low.push(d));
                number_of_push(low, d);
                let w = weight(i as int);
                assert(self@ * (number(low) + d * w) == self@ * number(low) + (self@ * d) * w)
                    by (nonlinear_arith);
            }
            i = i + 1;
        }
        proof {
            assert(other.digits@.take(i as int) =~= other.digits@);
        }
        product
    }

    /// Whether the number is at most another.
    pub fn at_most(&self, other: &Natural) -> (result: bool)
        ensures
            result == (self@ <= other@),
    {
        let length: usize = if self.digits.len() >= other.digits.len() {
            self.digits.len()
        } else {
            other.digits.len()
        };
        let mut i: usize = length;
        proof {
            below_the_end(self.digits@, length as int);
            below_the_end(other.digits@, length as int);
        }
        while i > 0
            invariant
                i <= length,
                self@ - below(self.digits@, i as int) == other@ - below(other.digits@, i as int),
            decreases i,
        {
            i = i - 1;
            let a: u32 = self.digit(i);
            let b: u32 = other.digit(i);
            if a != b {
                proof {
                    below_is_bounded(self.digits@, i as int);
                    below_is_bounded(other.digits@, i as int);
                    let w = weight(i as int);
                    if a < b {
                        assert(a * w + w <= b * w) by (nonlinear_arith)
                            requires
                                a + 1 <= b,
                                w > 0,
                        ;
                    } else {
                        assert(b * w + w <= a * w) by (nonlinear_arith)
                            requires
                                b + 1 <= a,
                                w > 0,
                        ;
                    }
                }
                return a < b;
            }
        }
        true
    }
}

proof fn weights_multiply(a: int, b: int)
    requires
        a >= 0,
        b >= 0,
    ensures
        weight(a + b) == weight(a) * weight(b),
    decreases b,
{
    if b > 0 {
        weights_multiply(a, b - 1);
        let v = weight(a);
        let w = weight(b - 1);
        assert(v * w * 0x1_0000_0000 == v * (w * 0x1_0000_0000)) by (nonlinear_arith);
    } else {
        assert(weight(a) * 1 == weight(a));
    }
}

} // verus!
