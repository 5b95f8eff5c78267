//! The numeric types that can serve as multiplicities.

use vstd::prelude::*;

verus! {

/// A numeric type whose values can be used as multiplicities.
///
/// Every count stands for a mathematical integer, its `amount`. The type
/// holds an interval of integers that includes zero, and two counts with the
/// same amount are the same count.
pub trait Count: Copy {
    /// The integer that this count stands for.
    spec fn amount(self) -> int;

    /// Whether the integer `v` can be held by this type.
    spec fn holds(v: int) -> bool;

    /// The count that stands for `v`, where the type holds `v`.
    spec fn of_amount(v: int) -> Self;

    /// The amount of a count is held by its type, and leads back to the count.
    proof fn amount_is_held(c: Self)
        ensures
            Self::holds(c.amount()),
            Self::of_amount(c.amount()) == c,
    ;

    /// The count that stands for a held integer has exactly that amount.
    proof fn of_amount_is_exact(v: int)
        requires
            Self::holds(v),
        ensures
            Self::of_amount(v).amount() == v,
    ;

    /// The held integers form an interval.
    proof fn held_is_an_interval(lo: int, v: int, hi: int)
        requires
            Self::holds(lo),
            Self::holds(hi),
            lo <= v <= hi,
        ensures
            Self::holds(v),
    ;

    /// The additive identity.
    fn zero() -> (z: Self)
        ensures
            z.amount() == 0,
    ;

    /// The sum of two counts, where the type can hold it.
    fn plus(self, rhs: Self) -> (s: Self)
        requires
            Self::holds(self.amount() + rhs.amount()),
        ensures
            s.amount() == self.amount() + rhs.amount(),
    ;
}

/// Calls `<usize as num_traits::Zero>::zero`, which returns the literal `0`.
#[verifier::external_body]
fn usize_zero() -> (z: usize)
    ensures
        z == 0,
{
    num_traits::Zero::zero()
}

impl Count for usize {
    open spec fn amount(self) -> int {
        self as int
    }

    open spec fn holds(v: int) -> bool {
        usize::MIN <= v <= usize::MAX
    }

    open spec fn of_amount(v: int) -> usize {
        v as usize
    }

    proof fn amount_is_held(c: usize) {
    }

    proof fn of_amount_is_exact(v: int) {
    }

    proof fn held_is_an_interval(lo: int, v: int, hi: int) {
    }

    fn zero() -> (z: usize) {
        usize_zero()
    }

    fn plus(self, rhs: usize) -> (s: usize) {
        let mut s: usize = self;
        s += rhs;
        s
    }
}

/// Calls `<u8 as num_traits::Zero>::zero`, which returns the literal `0`.
#[verifier::external_body]
fn u8_zero() -> (z: u8)
    ensures
        z == 0,
{
    num_traits::Zero::zero()
}

impl Count for u8 {
    open spec fn amount(self) -> int {
        self as int
    }

    open spec fn holds(v: int) -> bool {
        u8::MIN <= v <= u8::MAX
    }

    open spec fn of_amount(v: int) -> u8 {
        v as u8
    }

    proof fn amount_is_held(c: u8) {
    }

    proof fn of_amount_is_exact(v: int) {
    }

    proof fn held_is_an_interval(lo: int, v: int, hi: int) {
    }

    fn zero() -> (z: u8) {
        u8_zero()
    }

    fn plus(self, rhs: u8) -> (s: u8) {
        let mut s: u8 = self;
        s += rhs;
        s
    }
}

/// Calls `<u16 as num_traits::Zero>::zero`, which returns the literal `0`.
#[verifier::external_body]
fn u16_zero() -> (z: u16)
    ensures
        z == 0,
{
    num_traits::Zero::zero()
}

impl Count for u16 {
    open spec fn amount(self) -> int {
        self as int
    }

    open spec fn holds(v: int) -> bool {
        u16::MIN <= v <= u16::MAX
    }

    open spec fn of_amount(v: int) -> u16 {
        v as u16
    }

    proof fn amount_is_held(c: u16) {
    }

    proof fn of_amount_is_exact(v: int) {
    }

    proof fn held_is_an_interval(lo: int, v: int, hi: int) {
    }

    fn zero() -> (z: u16) {
        u16_zero()
    }

    fn plus(self, rhs: u16) -> (s: u16) {
        let mut s: u16 = self;
        s += rhs;
        s
    }
}

/// Calls `<u32 as num_traits::Zero>::zero`, which returns the literal `0`.
#[verifier::external_body]
fn u32_zero() -> (z: u32)
    ensures
        z == 0,
{
    num_traits::Zero::zero()
}

impl Count for u32 {
    open spec fn amount(self) -> int {
        self as int
    }

    open spec fn holds(v: int) -> bool {
        u32::MIN <= v <= u32::MAX
    }

    open spec fn of_amount(v: int) -> u32 {
        v as u32
    }

    proof fn amount_is_held(c: u32) {
    }

    proof fn of_amount_is_exact(v: int) {
    }

    proof fn held_is_an_interval(lo: int, v: int, hi: int) {
    }

    fn zero() -> (z: u32) {
        u32_zero()
    }

    fn plus(self, rhs: u32) -> (s: u32) {
        let mut s: u32 = self;
        s += rhs;
        s
    }
}

/// Calls `<u64 as num_traits::Zero>::zero`, which returns the literal `0`.
#[verifier::external_body]
fn u64_zero() -> (z: u64)
    ensures
        z == 0,
{
    num_traits::Zero::zero()
}

impl Count for u64 {
    open spec fn amount(self) -> int {
        self as int
    }

    open spec fn holds(v: int) -> bool {
        u64::MIN <= v <= u64::MAX
    }

    open spec fn of_amount(v: int) -> u64 {
        v as u64
    }

    proof fn amount_is_held(c: u64) {
    }

    proof fn of_amount_is_exact(v: int) {
    }

    proof fn held_is_an_interval(lo: int, v: int, hi: int) {
    }

    fn zero() -> (z: u64) {
        u64_zero()
    }

    fn plus(self, rhs: u64) -> (s: u64) {
        let mut s: u64 = self;
        s += rhs;
        s
    }
}

/// Calls `<u128 as num_traits::Zero>::zero`, which returns the literal `0`.
#[verifier::external_body]
fn u128_zero() -> (z: u128)
    ensures
        z == 0,
{
    num_traits::Zero::zero()
}

impl Count for u128 {
    open spec fn amount(self) -> int {
        self as int
    }

    open spec fn holds(v: int) -> bool {
        u128::MIN <= v <= u128::MAX
    }

    open spec fn of_amount(v: int) -> u128 {
        v as u128
    }

    proof fn amount_is_held(c: u128) {
    }

    proof fn of_amount_is_exact(v: int) {
    }

    proof fn held_is_an_interval(lo: int, v: int, hi: int) {
    }

    fn zero() -> (z: u128) {
        u128_zero()
    }

    fn plus(self, rhs: u128) -> (s: u128) {
        let mut s: u128 = self;
        s += rhs;
        s
    }
}

/// Calls `<isize as num_traits::Zero>::zero`, which returns the literal `0`.
#[verifier::external_body]
fn isize_zero() -> (z: isize)
    ensures
        z == 0,
{
    num_traits::Zero::zero()
}

impl Count for isize {
    open spec fn amount(self) -> int {
        self as int
    }

    open spec fn holds(v: int) -> bool {
        isize::MIN <= v <= isize::MAX
    }

    open spec fn of_amount(v: int) -> isize {
        v as isize
    }

    proof fn amount_is_held(c: isize) {
    }

    proof fn of_amount_is_exact(v: int) {
    }

    proof fn held_is_an_interval(lo: int, v: int, hi: int) {
    }

    fn zero() -> (z: isize) {
        isize_zero()
    }

    fn plus(self, rhs: isize) -> (s: isize) {
        let mut s: isize = self;
        s += rhs;
        s
    }
}

/// Calls `<i8 as num_traits::Zero>::zero`, which returns the literal `0`.
#[verifier::external_body]
fn i8_zero() -> (z: i8)
    ensures
        z == 0,
{
    num_traits::Zero::zero()
}

impl Count for i8 {
    open spec fn amount(self) -> int {
        self as int
    }

    open spec fn holds(v: int) -> bool {
        i8::MIN <= v <= i8::MAX
    }

    open spec fn of_amount(v: int) -> i8 {
        v as i8
    }

    proof fn amount_is_held(c: i8) {
    }

    proof fn of_amount_is_exact(v: int) {
    }

    proof fn held_is_an_interval(lo: int, v: int, hi: int) {
    }

    fn zero() -> (z: i8) {
        i8_zero()
    }

    fn plus(self, rhs: i8) -> (s: i8) {
        let mut s: i8 = self;
        s += rhs;
        s
    }
}

/// Calls `<i16 as num_traits::Zero>::zero`, which returns the literal `0`.
#[verifier::external_body]
fn i16_zero() -> (z: i16)
    ensures
        z == 0,
{
    num_traits::Zero::zero()
}

impl Count for i16 {
    open spec fn amount(self) -> int {
        self as int
    }

    open spec fn holds(v: int) -> bool {
        i16::MIN <= v <= i16::MAX
    }

    open spec fn of_amount(v: int) -> i16 {
        v as i16
    }

    proof fn amount_is_held(c: i16) {
    }

    proof fn of_amount_is_exact(v: int) {
    }

    proof fn held_is_an_interval(lo: int, v: int, hi: int) {
    }

    fn zero() -> (z: i16) {
        i16_zero()
    }

    fn plus(self, rhs: i16) -> (s: i16) {
        let mut s: i16 = self;
        s += rhs;
        s
    }
}

/// Calls `<i32 as num_traits::Zero>::zero`, which returns the literal `0`.
#[verifier::external_body]
fn i32_zero() -> (z: i32)
    ensures
        z == 0,
{
    num_traits::Zero::zero()
}

impl Count for i32 {
    open spec fn amount(self) -> int {
        self as int
    }

    open spec fn holds(v: int) -> bool {
        i32::MIN <= v <= i32::MAX
    }

    open spec fn of_amount(v: int) -> i32 {
        v as i32
    }

    proof fn amount_is_held(c: i32) {
    }

    proof fn of_amount_is_exact(v: int) {
    }

    proof fn held_is_an_interval(lo: int, v: int, hi: int) {
    }

    fn zero() -> (z: i32) {
        i32_zero()
    }

    fn plus(self, rhs: i32) -> (s: i32) {
        let mut s: i32 = self;
        s += rhs;
        s
    }
}

/// Calls `<i64 as num_traits::Zero>::zero`, which returns the literal `0`.
#[verifier::external_body]
fn i64_zero() -> (z: i64)
    ensures
        z == 0,
{
    num_traits::Zero::zero()
}

impl Count for i64 {
    open spec fn amount(self) -> int {
        self as int
    }

    open spec fn holds(v: int) -> bool {
        i64::MIN <= v <= i64::MAX
    }

    open spec fn of_amount(v: int) -> i64 {
        v as i64
    }

    proof fn amount_is_held(c: i64) {
    }

    proof fn of_amount_is_exact(v: int) {
    }

    proof fn held_is_an_interval(lo: int, v: int, hi: int) {
    }

    fn zero() -> (z: i64) {
        i64_zero()
    }

    fn plus(self, rhs: i64) -> (s: i64) {
        let mut s: i64 = self;
        s += rhs;
        s
    }
}

/// Calls `<i128 as num_traits::Zero>::zero`, which returns the literal `0`.
#[verifier::external_body]
fn i128_zero() -> (z: i128)
    ensures
        z == 0,
{
    num_traits::Zero::zero()
}

impl Count for i128 {
    open spec fn amount(self) -> int {
        self as int
    }

    open spec fn holds(v: int) -> bool {
        i128::MIN <= v <= i128::MAX
    }

    open spec fn of_amount(v: int) -> i128 {
        v as i128
    }

    proof fn amount_is_held(c: i128) {
    }

    proof fn of_amount_is_exact(v: int) {
    }

    proof fn held_is_an_interval(lo: int, v: int, hi: int) {
    }

    fn zero() -> (z: i128) {
        i128_zero()
    }

    fn plus(self, rhs: i128) -> (s: i128) {
        let mut s: i128 = self;
        s += rhs;
        s
    }
}

} // verus!
