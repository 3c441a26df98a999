//! IEEE 754 double-precision numbers, handled as their bit patterns.
//!
//! A sample is carried as the 64 bits that `f64::to_bits` gives: one sign
//! bit, eleven exponent bits, fifty-two fraction bits. Everything the codec
//! needs of such a number is defined here as integer arithmetic on those
//! bits, and computed by integer arithmetic: its class and its order
//! ([`bits`], [`order`]); its sum, difference, product and quotient with
//! another, rounded to nearest with ties to even ([`round`], [`arith`]); the
//! byte and the single-precision number that it becomes ([`convert`]).
//!
//! The payload and sign of a not-a-number are no part of this model: an
//! operation without a numeric result gives the one pattern [`NAN`].

pub mod arith;
pub mod bits;
pub mod convert;
pub mod order;
pub mod round;

pub use arith::{
    aligned,
    difference,
    divide,
    lemma_product_width,
    lemma_quotient_width,
    minus,
    multiply,
    plus,
    product,
    quotient,
    sign_of_product,
    signed_significand,
    sum,
};
pub use bits::{
    abs,
    binary_exponent,
    binary_fraction,
    Class,
    classify,
    doublings,
    exponent,
    frexp,
    HIDDEN_BIT,
    INFINITY,
    is_infinite,
    is_nan,
    is_negative,
    is_nonzero_finite,
    is_zero,
    lemma_binary_fraction,
    lemma_doublings,
    lemma_significand_bounds,
    magnitude,
    NAN,
    negate,
    negated,
    ONE,
    SIGN_BIT,
    sign_of,
    significand,
    unpack,
    ZERO,
};
pub use convert::{
    INFINITY_32,
    integer_part,
    lemma_zero_truncates,
    NAN_32,
    narrowed,
    rounded32,
    SIGN_BIT_32,
    to_binary32,
    to_u8,
    truncated_u8,
};
pub use order::{
    at_most,
    below,
    larger,
    le,
    lemma_rank_orders_values,
    lt,
    max,
    min,
    rank,
    smaller,
};
pub use round::{
    bit_length,
    lemma_bit_length,
    lemma_bit_length_unique,
    lemma_pow2_wide,
    lemma_round_half_even_is_nearest,
    round_half_even,
    round_scaled,
    rounded64,
    rounded_signed,
};
