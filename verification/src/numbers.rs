//! What the bits of element types stand for, and arithmetic as laws speak of it.

use vstd::prelude::*;
use vstd::arithmetic::power2::*;

verus! {

/// What kind of numbers a type holds.
pub enum NumberClass {
    Float,
    Signed,
    Unsigned,
    Truth,
}

/// How a number is written in bits: a sign, where the class has one, then the exponent,
/// then the mantissa. Integers have no exponent.
pub struct NumberFormat {
    pub class: NumberClass,
    pub exponent: nat,
    pub mantissa: nat,
}

impl NumberFormat {
    /// The bits that a number takes.
    pub open spec fn bits(self) -> int {
        let sign: int = match self.class {
            NumberClass::Float | NumberClass::Signed => 1,
            NumberClass::Unsigned | NumberClass::Truth => 0,
        };
        sign + self.exponent + self.mantissa
    }

    /// The exponent field of a floating point number.
    pub open spec fn exponent_field(self, x: int) -> int {
        x / pow2(self.mantissa) as int % pow2(self.exponent) as int
    }

    /// The mantissa field of a floating point number.
    pub open spec fn mantissa_field(self, x: int) -> int {
        x % pow2(self.mantissa) as int
    }

    /// Whether the number is negative.
    pub open spec fn negative(self, x: int) -> bool {
        x / pow2(self.mantissa + self.exponent) as int % 2 == 1
    }

    /// Whether a floating point number is neither infinite nor none at all.
    pub open spec fn finite(self, x: int) -> bool {
        self.exponent_field(x) < pow2(self.exponent) - 1
    }

    /// The magnitude of a finite floating point number in units of `2^-149`.
    pub open spec fn magnitude(self, x: int) -> int {
        let e = self.exponent_field(x);
        let f = self.mantissa_field(x);
        let bias = pow2((self.exponent - 1) as nat) - 1;
        if e == 0 {
            f * pow2((150 - bias - self.mantissa) as nat)
        } else {
            (pow2(self.mantissa) + f) * pow2((149 + e - bias - self.mantissa) as nat)
        }
    }
}

/// Single precision.
pub open spec fn single_format() -> NumberFormat {
    NumberFormat { class: NumberClass::Float, exponent: 8, mantissa: 23 }
}

/// Functions on numbers, of which laws say only what holds whatever they are.
pub struct Arithmetic {
    pub add: spec_fn(int, int) -> int,
    pub sub: spec_fn(int, int) -> int,
    pub mul: spec_fn(int, int) -> int,
    pub div: spec_fn(int, int) -> int,
    pub pow: spec_fn(int, int) -> int,
    pub max: spec_fn(int, int) -> int,
    pub and: spec_fn(int, int) -> int,
    pub or: spec_fn(int, int) -> int,
    pub xor: spec_fn(int, int) -> int,
    pub shift_left: spec_fn(int, int) -> int,
    pub shift_right: spec_fn(int, int) -> int,
    pub shift_right_signed: spec_fn(int, int) -> int,
    pub cos: spec_fn(int) -> int,
    pub sin: spec_fn(int) -> int,
    pub neg: spec_fn(int) -> int,
    pub exp: spec_fn(int) -> int,
    pub rsqrt: spec_fn(int) -> int,
    pub log: spec_fn(int) -> int,
    /// The number that a word of bits stands for.
    pub number: spec_fn(u32) -> int,
}

impl Arithmetic {
    /// Whether sums, products and maxima do not depend on the order of their operands.
    pub open spec fn commutes(self) -> bool {
        &&& forall|a: int, b: int| #[trigger] (self.add)(a, b) == (self.add)(b, a)
        &&& forall|a: int, b: int| #[trigger] (self.mul)(a, b) == (self.mul)(b, a)
        &&& forall|a: int, b: int| #[trigger] (self.max)(a, b) == (self.max)(b, a)
    }
}

} // verus!
